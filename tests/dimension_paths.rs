use region_scanner::get_path_from_dimension;

#[test]
fn test_dim_to_path_conversions() {
    let correct_results = [
        ("minecraft:overworld", "region"),
        ("minecraft:the_end", "DIM1/region"),
        ("minecraft:the_nether", "DIM-1/region"),
        (
            "appliedenergistics2:spatial_storage",
            "dimensions/appliedenergistics2/spatial_storage/region",
        ),
    ];
    let mut wrong = vec![];
    for (inp, out) in correct_results {
        let generated = get_path_from_dimension(inp);

        if generated.is_none() || generated.as_ref().unwrap() != out {
            wrong.push((inp, out, generated));
        }
    }
    if !wrong.is_empty() {
        let mut panic_str = format!(
            "Of {} conversion tests, {} failed:",
            correct_results.len(),
            wrong.len()
        );
        for (inp, out, generated) in wrong {
            panic_str.push_str(&format!(
                "\nInput: '{}', expected: '{}', got: '{}'",
                inp,
                out,
                generated.unwrap_or_else(|| "<invalid input>".to_string()),
            ));
        }
        panic!("{}", panic_str);
    }
}

#[test]
fn dimension_without_colon_has_no_path() {
    assert_eq!(get_path_from_dimension("overworld"), None);
    assert_eq!(get_path_from_dimension(""), None);
}

#[test]
fn dimension_with_two_colons_has_no_path() {
    assert_eq!(get_path_from_dimension("a:b:c"), None);
}

#[test]
fn modded_dimension_path() {
    assert_eq!(
        get_path_from_dimension("jamd:mining").as_deref(),
        Some("dimensions/jamd/mining/region")
    );
}
