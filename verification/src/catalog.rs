//! The filter catalog: immutable metadata for every filter kind — the
//! human-readable name, a description, the category, and the legal
//! intensity domain with its default — plus the catalog listings.
//!
//! Intensities are in thousandths; every filter's legal domain is
//! `[0, 1000]`.

use vstd::prelude::*;
use crate::kinds::{spec_from_name, spec_name, FilterType};

verus! {

/// The display name of a filter kind.
pub open spec fn meta_name(k: FilterType) -> Seq<char> {
    match k {
        FilterType::Grayscale => "Grayscale"@,
        FilterType::Sepia => "Sepia"@,
        FilterType::Invert => "Invert"@,
        FilterType::Brightness => "Brightness"@,
        FilterType::Contrast => "Contrast"@,
        FilterType::Saturation => "Saturation"@,
        FilterType::Blur => "Blur"@,
        FilterType::Sharpen => "Sharpen"@,
        FilterType::Vignette => "Vignette"@,
        FilterType::Vintage => "Vintage"@,
        FilterType::Warm => "Warm"@,
        FilterType::Cool => "Cool"@,
        FilterType::Posterize => "Posterize"@,
        FilterType::Emboss => "Emboss"@,
        FilterType::EdgeDetect => "Edge Detect"@,
        FilterType::Noise => "Noise"@,
        FilterType::Pixelate => "Pixelate"@,
        FilterType::ChromaticAberration => "Chromatic Aberration"@,
    }
}

/// The one-line description of a filter kind.
pub open spec fn meta_description(k: FilterType) -> Seq<char> {
    match k {
        FilterType::Grayscale => "Convert image to black and white"@,
        FilterType::Sepia => "Apply warm brownish tone"@,
        FilterType::Invert => "Invert all colors"@,
        FilterType::Brightness => "Adjust image brightness"@,
        FilterType::Contrast => "Adjust image contrast"@,
        FilterType::Saturation => "Adjust color saturation"@,
        FilterType::Blur => "Apply gaussian blur"@,
        FilterType::Sharpen => "Enhance edge details"@,
        FilterType::Vignette => "Darken image edges"@,
        FilterType::Vintage => "Apply retro film look"@,
        FilterType::Warm => "Add warm orange tones"@,
        FilterType::Cool => "Add cool blue tones"@,
        FilterType::Posterize => "Reduce color levels"@,
        FilterType::Emboss => "Create raised surface effect"@,
        FilterType::EdgeDetect => "Highlight edges in image"@,
        FilterType::Noise => "Add film grain effect"@,
        FilterType::Pixelate => "Create pixel art effect"@,
        FilterType::ChromaticAberration => "Add color fringing effect"@,
    }
}

/// The category of a filter kind: one of color, adjustment, effect,
/// artistic, preset.
pub open spec fn meta_category(k: FilterType) -> Seq<char> {
    match k {
        FilterType::Grayscale => "color"@,
        FilterType::Sepia => "color"@,
        FilterType::Invert => "color"@,
        FilterType::Brightness => "adjustment"@,
        FilterType::Contrast => "adjustment"@,
        FilterType::Saturation => "adjustment"@,
        FilterType::Blur => "effect"@,
        FilterType::Sharpen => "effect"@,
        FilterType::Vignette => "effect"@,
        FilterType::Vintage => "preset"@,
        FilterType::Warm => "color"@,
        FilterType::Cool => "color"@,
        FilterType::Posterize => "artistic"@,
        FilterType::Emboss => "artistic"@,
        FilterType::EdgeDetect => "artistic"@,
        FilterType::Noise => "effect"@,
        FilterType::Pixelate => "artistic"@,
        FilterType::ChromaticAberration => "effect"@,
    }
}

/// The default intensity of a filter kind, in thousandths.
pub open spec fn meta_default(k: FilterType) -> int {
    match k {
        FilterType::Grayscale => 1000,
        FilterType::Sepia => 1000,
        FilterType::Invert => 1000,
        FilterType::Brightness => 500,
        FilterType::Contrast => 500,
        FilterType::Saturation => 500,
        FilterType::Blur => 300,
        FilterType::Sharpen => 500,
        FilterType::Vignette => 500,
        FilterType::Vintage => 1000,
        FilterType::Warm => 500,
        FilterType::Cool => 500,
        FilterType::Posterize => 500,
        FilterType::Emboss => 500,
        FilterType::EdgeDetect => 500,
        FilterType::Noise => 300,
        FilterType::Pixelate => 300,
        FilterType::ChromaticAberration => 300,
    }
}

/// Immutable metadata of one filter: names, category and the legal
/// intensity domain (in thousandths) with its default. Never mutated;
/// built fresh by each lookup.
pub struct FilterMetadata {
    /// Display name.
    pub name: &'static str,
    /// One-line description.
    pub description: &'static str,
    /// Category key.
    pub category: &'static str,
    /// Default intensity, in thousandths.
    pub default_intensity: u32,
    /// Smallest legal intensity, in thousandths.
    pub min_intensity: u32,
    /// Largest legal intensity, in thousandths.
    pub max_intensity: u32,
}

impl FilterMetadata {
    /// Builds a metadata record from its parts.
    pub fn new(
        name: &'static str,
        description: &'static str,
        category: &'static str,
        default_intensity: u32,
        min_intensity: u32,
        max_intensity: u32,
    ) -> (m: FilterMetadata)
        ensures
            m.name == name,
            m.description == description,
            m.category == category,
            m.default_intensity == default_intensity,
            m.min_intensity == min_intensity,
            m.max_intensity == max_intensity,
    {
        FilterMetadata { name, description, category, default_intensity, min_intensity, max_intensity }
    }

    /// The display name.
    pub fn name(&self) -> (r: &'static str)
        ensures
            r == self.name,
    {
        self.name
    }

    /// The description.
    pub fn description(&self) -> (r: &'static str)
        ensures
            r == self.description,
    {
        self.description
    }

    /// The category key.
    pub fn category(&self) -> (r: &'static str)
        ensures
            r == self.category,
    {
        self.category
    }

    /// The default intensity, in thousandths.
    pub fn default_intensity(&self) -> (r: u32)
        ensures
            r == self.default_intensity,
    {
        self.default_intensity
    }

    /// The smallest legal intensity, in thousandths.
    pub fn min_intensity(&self) -> (r: u32)
        ensures
            r == self.min_intensity,
    {
        self.min_intensity
    }

    /// The largest legal intensity, in thousandths.
    pub fn max_intensity(&self) -> (r: u32)
        ensures
            r == self.max_intensity,
    {
        self.max_intensity
    }
}

/// Whether a metadata record carries exactly the catalog's values for
/// kind `k`.
pub open spec fn is_metadata_for(m: FilterMetadata, k: FilterType) -> bool {
    m.name@ == meta_name(k) && m.description@ == meta_description(k) && m.category@
        == meta_category(k) && m.default_intensity == meta_default(k) && m.min_intensity == 0
        && m.max_intensity == 1000
}

/// The catalog record of one filter kind.
pub fn metadata_for(k: FilterType) -> (m: FilterMetadata)
    ensures
        is_metadata_for(m, k),
{
    match k {
        FilterType::Grayscale => FilterMetadata::new(
            "Grayscale", "Convert image to black and white", "color", 1000, 0, 1000),
        FilterType::Sepia => FilterMetadata::new(
            "Sepia", "Apply warm brownish tone", "color", 1000, 0, 1000),
        FilterType::Invert => FilterMetadata::new(
            "Invert", "Invert all colors", "color", 1000, 0, 1000),
        FilterType::Brightness => FilterMetadata::new(
            "Brightness", "Adjust image brightness", "adjustment", 500, 0, 1000),
        FilterType::Contrast => FilterMetadata::new(
            "Contrast", "Adjust image contrast", "adjustment", 500, 0, 1000),
        FilterType::Saturation => FilterMetadata::new(
            "Saturation", "Adjust color saturation", "adjustment", 500, 0, 1000),
        FilterType::Blur => FilterMetadata::new(
            "Blur", "Apply gaussian blur", "effect", 300, 0, 1000),
        FilterType::Sharpen => FilterMetadata::new(
            "Sharpen", "Enhance edge details", "effect", 500, 0, 1000),
        FilterType::Vignette => FilterMetadata::new(
            "Vignette", "Darken image edges", "effect", 500, 0, 1000),
        FilterType::Vintage => FilterMetadata::new(
            "Vintage", "Apply retro film look", "preset", 1000, 0, 1000),
        FilterType::Warm => FilterMetadata::new(
            "Warm", "Add warm orange tones", "color", 500, 0, 1000),
        FilterType::Cool => FilterMetadata::new(
            "Cool", "Add cool blue tones", "color", 500, 0, 1000),
        FilterType::Posterize => FilterMetadata::new(
            "Posterize", "Reduce color levels", "artistic", 500, 0, 1000),
        FilterType::Emboss => FilterMetadata::new(
            "Emboss", "Create raised surface effect", "artistic", 500, 0, 1000),
        FilterType::EdgeDetect => FilterMetadata::new(
            "Edge Detect", "Highlight edges in image", "artistic", 500, 0, 1000),
        FilterType::Noise => FilterMetadata::new(
            "Noise", "Add film grain effect", "effect", 300, 0, 1000),
        FilterType::Pixelate => FilterMetadata::new(
            "Pixelate", "Create pixel art effect", "artistic", 300, 0, 1000),
        FilterType::ChromaticAberration => FilterMetadata::new(
            "Chromatic Aberration", "Add color fringing effect", "effect", 300, 0, 1000),
    }
}

/// Looks a filter up by its canonical name: the catalog record for a
/// known name, `None` for any string outside the catalog.
pub fn get_filter_metadata(filter_type: &str) -> (r: Option<FilterMetadata>)
    ensures
        match spec_from_name(filter_type@) {
            Some(k) => r is Some && is_metadata_for(r->Some_0, k),
            None => r is None,
        },
{
    match FilterType::from_string(filter_type) {
        Some(k) => Some(metadata_for(k)),
        None => None,
    }
}

/// The canonical listing order of the catalog.
pub open spec fn catalog_order(i: int) -> FilterType {
    if i == 0 {
        FilterType::Grayscale
    } else if i == 1 {
        FilterType::Sepia
    } else if i == 2 {
        FilterType::Invert
    } else if i == 3 {
        FilterType::Brightness
    } else if i == 4 {
        FilterType::Contrast
    } else if i == 5 {
        FilterType::Saturation
    } else if i == 6 {
        FilterType::Blur
    } else if i == 7 {
        FilterType::Sharpen
    } else if i == 8 {
        FilterType::Vignette
    } else if i == 9 {
        FilterType::Vintage
    } else if i == 10 {
        FilterType::Warm
    } else if i == 11 {
        FilterType::Cool
    } else if i == 12 {
        FilterType::Posterize
    } else if i == 13 {
        FilterType::Emboss
    } else if i == 14 {
        FilterType::EdgeDetect
    } else if i == 15 {
        FilterType::Noise
    } else if i == 16 {
        FilterType::Pixelate
    } else {
        FilterType::ChromaticAberration
    }
}

/// Lists the canonical names of all 18 filters, in catalog order.
pub fn get_all_filter_types() -> (r: Vec<&'static str>)
    ensures
        r@.len() == 18,
        forall|i: int| 0 <= i < 18 ==> r@[i]@ == spec_name(#[trigger] catalog_order(i)),
{
    let mut v: Vec<&'static str> = Vec::new();
    v.push("grayscale");
    v.push("sepia");
    v.push("invert");
    v.push("brightness");
    v.push("contrast");
    v.push("saturation");
    v.push("blur");
    v.push("sharpen");
    v.push("vignette");
    v.push("vintage");
    v.push("warm");
    v.push("cool");
    v.push("posterize");
    v.push("emboss");
    v.push("edge_detect");
    v.push("noise");
    v.push("pixelate");
    v.push("chromatic_aberration");
    proof {
        assert forall|i: int| 0 <= i < 18 implies v@[i]@ == spec_name(
            #[trigger] catalog_order(i)) by {
        }
    }
    v
}

/// The order in which the category listing walks the catalog.
pub open spec fn category_table(i: int) -> FilterType {
    if i == 0 {
        FilterType::Grayscale
    } else if i == 1 {
        FilterType::Sepia
    } else if i == 2 {
        FilterType::Invert
    } else if i == 3 {
        FilterType::Warm
    } else if i == 4 {
        FilterType::Cool
    } else if i == 5 {
        FilterType::Brightness
    } else if i == 6 {
        FilterType::Contrast
    } else if i == 7 {
        FilterType::Saturation
    } else if i == 8 {
        FilterType::Blur
    } else if i == 9 {
        FilterType::Sharpen
    } else if i == 10 {
        FilterType::Vignette
    } else if i == 11 {
        FilterType::Noise
    } else if i == 12 {
        FilterType::ChromaticAberration
    } else if i == 13 {
        FilterType::Vintage
    } else if i == 14 {
        FilterType::Posterize
    } else if i == 15 {
        FilterType::Emboss
    } else if i == 16 {
        FilterType::EdgeDetect
    } else {
        FilterType::Pixelate
    }
}

/// The names of the first `i` table entries whose category is `cat`,
/// in table order.
pub open spec fn spec_filters_by_category(cat: Seq<char>, i: int) -> Seq<Seq<char>>
    decreases i,
{
    if i <= 0 {
        Seq::empty()
    } else {
        spec_filters_by_category(cat, i - 1) + (if meta_category(category_table(i - 1)) == cat {
            seq![spec_name(category_table(i - 1))]
        } else {
            Seq::empty()
        })
    }
}

/// One entry of the category table: the canonical name and the
/// category of the `i`-th listed filter.
fn category_entry(i: u32) -> (r: (&'static str, &'static str))
    requires
        i < 18,
    ensures
        r.0@ == spec_name(category_table(i as int)),
        r.1@ == meta_category(category_table(i as int)),
{
    match i {
        0 => ("grayscale", "color"),
        1 => ("sepia", "color"),
        2 => ("invert", "color"),
        3 => ("warm", "color"),
        4 => ("cool", "color"),
        5 => ("brightness", "adjustment"),
        6 => ("contrast", "adjustment"),
        7 => ("saturation", "adjustment"),
        8 => ("blur", "effect"),
        9 => ("sharpen", "effect"),
        10 => ("vignette", "effect"),
        11 => ("noise", "effect"),
        12 => ("chromatic_aberration", "effect"),
        13 => ("vintage", "preset"),
        14 => ("posterize", "artistic"),
        15 => ("emboss", "artistic"),
        16 => ("edge_detect", "artistic"),
        _ => ("pixelate", "artistic"),
    }
}

/// Lists the canonical names of the filters in `category`, in the
/// catalog's category-table order; an unknown category lists nothing.
pub fn get_filters_by_category(category: &str) -> (r: Vec<&'static str>)
    ensures
        r@.len() == spec_filters_by_category(category@, 18).len(),
        forall|j: int|
            0 <= j < r@.len() ==> r@[j]@ == spec_filters_by_category(category@, 18)[j],
{
    let mut v: Vec<&'static str> = Vec::new();
    let mut i: u32 = 0;
    while i < 18
        invariant
            i <= 18,
            v@.len() == spec_filters_by_category(category@, i as int).len(),
            forall|j: int|
                0 <= j < v@.len() ==> v@[j]@ == spec_filters_by_category(category@, i as int)[j],
        decreases 18 - i,
    {
        let (name, cat) = category_entry(i);
        if crate::kinds::str_eq(cat, category) {
            v.push(name);
        }
        i += 1;
    }
    v
}

/// Lists the five category keys.
pub fn get_filter_categories() -> (r: Vec<&'static str>)
    ensures
        r@.len() == 5,
        r@[0]@ == "color"@,
        r@[1]@ == "adjustment"@,
        r@[2]@ == "effect"@,
        r@[3]@ == "artistic"@,
        r@[4]@ == "preset"@,
{
    let mut v: Vec<&'static str> = Vec::new();
    v.push("color");
    v.push("adjustment");
    v.push("effect");
    v.push("artistic");
    v.push("preset");
    v
}

} // verus!
