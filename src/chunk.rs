use vstd::prelude::*;

verus! {

/// The vertical-coordinate convention of a world's chunk format.
#[derive(Debug, Clone, Copy, PartialEq, Eq, Structural)]
pub enum RegionVersion {
    Pre118,
    AtLeast118,
}

/// Which chunks take part in a count, by generation status.
#[derive(Debug, Clone, Copy, PartialEq, Eq, Structural)]
pub enum ProtoOption {
    /// Protochunks are skipped.
    Skip,
    /// Protochunks are counted along with full chunks.
    Include,
    /// Only protochunks are counted.
    OnlyProto,
}

/// Generation status of a chunk.
#[derive(Debug, Clone, Copy, PartialEq, Eq, Structural)]
pub enum ChunkStatus {
    Full,
    Proto,
}

/// A chunk is fully generated when its status tag is `minecraft:full`, or
/// `full` in older formats.
pub open spec fn is_full_status(status: Seq<char>) -> bool {
    status == "minecraft:full"@ || status == "full"@
}

pub open spec fn status_of(status: Seq<char>) -> ChunkStatus {
    if is_full_status(status) {
        ChunkStatus::Full
    } else {
        ChunkStatus::Proto
    }
}

/// Whether a chunk of the given status is counted under the policy.
pub open spec fn admits(proto: ProtoOption, status: ChunkStatus) -> bool {
    match proto {
        ProtoOption::Skip => status == ChunkStatus::Full,
        ProtoOption::Include => true,
        ProtoOption::OnlyProto => status == ChunkStatus::Proto,
    }
}

/// Classifies a chunk's status tag.
pub fn classify_status(status: &str) -> (r: ChunkStatus)
    ensures
        r == status_of(status@),
{
    proof {
        reveal_strlit("minecraft:full");
        reveal_strlit("full");
    }
    let s = status.to_owned();
    if s == "minecraft:full".to_owned() || s == "full".to_owned() {
        ChunkStatus::Full
    } else {
        ChunkStatus::Proto
    }
}

/// Whether a chunk of the given status is counted under the policy.
pub fn is_admitted(proto: ProtoOption, status: ChunkStatus) -> (r: bool)
    ensures
        r == admits(proto, status),
{
    match proto {
        ProtoOption::Skip => status == ChunkStatus::Full,
        ProtoOption::Include => true,
        ProtoOption::OnlyProto => status == ChunkStatus::Proto,
    }
}

/// The blocks of one decoded chunk: its status tag and, for every level of its
/// vertical range `y_start..y_end` and every local `(z, x)`, the block's name
/// or `None` where the chunk has no block. The block at level `y`, local
/// `(x, z)` is at index `((y - y_start) * 16 + z) * 16 + x`, so `x` changes
/// fastest and the level slowest.
pub struct ChunkContents {
    pub status: String,
    pub y_start: isize,
    pub y_end: isize,
    pub blocks: Vec<Option<String>>,
}

impl ChunkContents {
    pub open spec fn wf(&self) -> bool {
        &&& self.y_start <= self.y_end
        &&& self.blocks.len() == 256 * (self.y_end - self.y_start)
    }

    /// The level of the block at index `k`.
    pub open spec fn level_at(&self, k: int) -> int {
        self.y_start + k / 256
    }

    /// Whether the block at index `k` is named `name` and lies at level `y`.
    pub open spec fn is_at(&self, k: int, name: Seq<char>, y: int) -> bool {
        &&& self.level_at(k) == y
        &&& match self.blocks@[k] {
            Some(s) => s@ == name,
            None => false,
        }
    }

    /// Number of blocks named `name` at level `y` among the first `n` blocks.
    pub open spec fn occurrences(&self, n: int, name: Seq<char>, y: int) -> nat
        decreases n,
    {
        if n <= 0 {
            0
        } else {
            self.occurrences(n - 1, name, y) + if self.is_at(n - 1, name, y) {
                1nat
            } else {
                0nat
            }
        }
    }

    /// Number of blocks named `name` at level `y` in the chunk.
    pub open spec fn count(&self, name: Seq<char>, y: int) -> nat {
        self.occurrences(self.blocks.len() as int, name, y)
    }
}

} // verus!
