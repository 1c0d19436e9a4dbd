use imagefx::{
    get_all_filter_types, get_filter_categories, get_filter_metadata, get_filters_by_category,
    FilterType,
};

#[test]
fn name_kind_round_trip_over_catalog() {
    let names = get_all_filter_types();
    assert_eq!(names.len(), 18);
    for name in &names {
        let kind = FilterType::from_string(name).expect("catalog name must parse");
        assert_eq!(kind.as_str(), *name);
    }
}

#[test]
fn unknown_names_are_not_found() {
    assert_eq!(FilterType::from_string("sharpen "), None);
    assert_eq!(FilterType::from_string(""), None);
    assert_eq!(FilterType::from_string("Grayscale"), None);
    assert_eq!(FilterType::from_string("glow"), None);
    assert!(get_filter_metadata("glow").is_none());
}

#[test]
fn kind_to_name_to_kind() {
    let kinds = [
        FilterType::Grayscale,
        FilterType::Sepia,
        FilterType::Invert,
        FilterType::Brightness,
        FilterType::Contrast,
        FilterType::Saturation,
        FilterType::Blur,
        FilterType::Sharpen,
        FilterType::Vignette,
        FilterType::Vintage,
        FilterType::Warm,
        FilterType::Cool,
        FilterType::Posterize,
        FilterType::Emboss,
        FilterType::EdgeDetect,
        FilterType::Noise,
        FilterType::Pixelate,
        FilterType::ChromaticAberration,
    ];
    for k in kinds {
        assert_eq!(FilterType::from_string(k.as_str()), Some(k));
    }
}

#[test]
fn metadata_values() {
    let m = get_filter_metadata("grayscale").unwrap();
    assert_eq!(m.name(), "Grayscale");
    assert_eq!(m.description(), "Convert image to black and white");
    assert_eq!(m.category(), "color");
    assert_eq!(m.default_intensity(), 1000);
    assert_eq!(m.min_intensity(), 0);
    assert_eq!(m.max_intensity(), 1000);
    let b = get_filter_metadata("blur").unwrap();
    assert_eq!(b.category(), "effect");
    assert_eq!(b.default_intensity(), 300);
    let v = get_filter_metadata("vintage").unwrap();
    assert_eq!(v.category(), "preset");
}

#[test]
fn filters_by_category_lists() {
    assert_eq!(
        get_filters_by_category("color"),
        vec!["grayscale", "sepia", "invert", "warm", "cool"]
    );
    assert_eq!(
        get_filters_by_category("adjustment"),
        vec!["brightness", "contrast", "saturation"]
    );
    assert_eq!(
        get_filters_by_category("effect"),
        vec!["blur", "sharpen", "vignette", "noise", "chromatic_aberration"]
    );
    assert_eq!(
        get_filters_by_category("artistic"),
        vec!["posterize", "emboss", "edge_detect", "pixelate"]
    );
    assert_eq!(get_filters_by_category("preset"), vec!["vintage"]);
    assert!(get_filters_by_category("unknown").is_empty());
}

#[test]
fn category_list() {
    assert_eq!(
        get_filter_categories(),
        vec!["color", "adjustment", "effect", "artistic", "preset"]
    );
}
