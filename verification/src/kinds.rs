//! The closed catalog of filter kinds and the bijection between a kind
//! and its canonical lowercase snake-case name.

use vstd::prelude::*;
use vstd::slice::slice_index_get;
use vstd::string::StringSliceAdditionalSpecFns;
use vstd::utf8::{decode_utf8, encode_utf8};

verus! {

/// One of the fixed, closed set of filters the engine knows.
#[derive(Clone, Copy, Debug, PartialEq, Eq, Structural)]
pub enum FilterType {
    Grayscale,
    Sepia,
    Invert,
    Brightness,
    Contrast,
    Saturation,
    Blur,
    Sharpen,
    Vignette,
    Vintage,
    Warm,
    Cool,
    Posterize,
    Emboss,
    EdgeDetect,
    Noise,
    Pixelate,
    ChromaticAberration,
}

/// The canonical serialized name of a filter kind.
pub open spec fn spec_name(k: FilterType) -> Seq<char> {
    match k {
        FilterType::Grayscale => "grayscale"@,
        FilterType::Sepia => "sepia"@,
        FilterType::Invert => "invert"@,
        FilterType::Brightness => "brightness"@,
        FilterType::Contrast => "contrast"@,
        FilterType::Saturation => "saturation"@,
        FilterType::Blur => "blur"@,
        FilterType::Sharpen => "sharpen"@,
        FilterType::Vignette => "vignette"@,
        FilterType::Vintage => "vintage"@,
        FilterType::Warm => "warm"@,
        FilterType::Cool => "cool"@,
        FilterType::Posterize => "posterize"@,
        FilterType::Emboss => "emboss"@,
        FilterType::EdgeDetect => "edge_detect"@,
        FilterType::Noise => "noise"@,
        FilterType::Pixelate => "pixelate"@,
        FilterType::ChromaticAberration => "chromatic_aberration"@,
    }
}

/// The kind whose canonical name is `s`, if any: the inverse of
/// [`spec_name`], with `None` for every string outside the catalog.
pub open spec fn spec_from_name(s: Seq<char>) -> Option<FilterType> {
    if s == "grayscale"@ {
        Some(FilterType::Grayscale)
    } else if s == "sepia"@ {
        Some(FilterType::Sepia)
    } else if s == "invert"@ {
        Some(FilterType::Invert)
    } else if s == "brightness"@ {
        Some(FilterType::Brightness)
    } else if s == "contrast"@ {
        Some(FilterType::Contrast)
    } else if s == "saturation"@ {
        Some(FilterType::Saturation)
    } else if s == "blur"@ {
        Some(FilterType::Blur)
    } else if s == "sharpen"@ {
        Some(FilterType::Sharpen)
    } else if s == "vignette"@ {
        Some(FilterType::Vignette)
    } else if s == "vintage"@ {
        Some(FilterType::Vintage)
    } else if s == "warm"@ {
        Some(FilterType::Warm)
    } else if s == "cool"@ {
        Some(FilterType::Cool)
    } else if s == "posterize"@ {
        Some(FilterType::Posterize)
    } else if s == "emboss"@ {
        Some(FilterType::Emboss)
    } else if s == "edge_detect"@ {
        Some(FilterType::EdgeDetect)
    } else if s == "noise"@ {
        Some(FilterType::Noise)
    } else if s == "pixelate"@ {
        Some(FilterType::Pixelate)
    } else if s == "chromatic_aberration"@ {
        Some(FilterType::ChromaticAberration)
    } else {
        None
    }
}

/// Reveals every catalog name literal, so their character sequences are
/// concrete to the solver.
proof fn reveal_catalog_names()
    ensures
        "grayscale"@ =~= seq!['g', 'r', 'a', 'y', 's', 'c', 'a', 'l', 'e'],
        "sepia"@ =~= seq!['s', 'e', 'p', 'i', 'a'],
        "invert"@ =~= seq!['i', 'n', 'v', 'e', 'r', 't'],
        "brightness"@ =~= seq!['b', 'r', 'i', 'g', 'h', 't', 'n', 'e', 's', 's'],
        "contrast"@ =~= seq!['c', 'o', 'n', 't', 'r', 'a', 's', 't'],
        "saturation"@ =~= seq!['s', 'a', 't', 'u', 'r', 'a', 't', 'i', 'o', 'n'],
        "blur"@ =~= seq!['b', 'l', 'u', 'r'],
        "sharpen"@ =~= seq!['s', 'h', 'a', 'r', 'p', 'e', 'n'],
        "vignette"@ =~= seq!['v', 'i', 'g', 'n', 'e', 't', 't', 'e'],
        "vintage"@ =~= seq!['v', 'i', 'n', 't', 'a', 'g', 'e'],
        "warm"@ =~= seq!['w', 'a', 'r', 'm'],
        "cool"@ =~= seq!['c', 'o', 'o', 'l'],
        "posterize"@ =~= seq!['p', 'o', 's', 't', 'e', 'r', 'i', 'z', 'e'],
        "emboss"@ =~= seq!['e', 'm', 'b', 'o', 's', 's'],
        "edge_detect"@ =~= seq!['e', 'd', 'g', 'e', '_', 'd', 'e', 't', 'e', 'c', 't'],
        "noise"@ =~= seq!['n', 'o', 'i', 's', 'e'],
        "pixelate"@ =~= seq!['p', 'i', 'x', 'e', 'l', 'a', 't', 'e'],
        "chromatic_aberration"@ =~= seq![
            'c', 'h', 'r', 'o', 'm', 'a', 't', 'i', 'c', '_',
            'a', 'b', 'e', 'r', 'r', 'a', 't', 'i', 'o', 'n'
        ],
{
    reveal_strlit("grayscale");
    reveal_strlit("sepia");
    reveal_strlit("invert");
    reveal_strlit("brightness");
    reveal_strlit("contrast");
    reveal_strlit("saturation");
    reveal_strlit("blur");
    reveal_strlit("sharpen");
    reveal_strlit("vignette");
    reveal_strlit("vintage");
    reveal_strlit("warm");
    reveal_strlit("cool");
    reveal_strlit("posterize");
    reveal_strlit("emboss");
    reveal_strlit("edge_detect");
    reveal_strlit("noise");
    reveal_strlit("pixelate");
    reveal_strlit("chromatic_aberration");
}

/// Character-for-character string equality, decided by comparing the
/// UTF-8 bytes of the two strings.
pub(crate) fn str_eq(a: &str, b: &str) -> (r: bool)
    ensures
        r == (a@ == b@),
{
    let ab = a.as_bytes();
    let bb = b.as_bytes();
    proof {
        vstd::utf8::encode_utf8_decode_utf8(a@);
        vstd::utf8::encode_utf8_decode_utf8(b@);
    }
    if ab.len() != bb.len() {
        assert(a.spec_bytes() != b.spec_bytes());
        assert(a@ != b@);
        return false;
    }
    let n = ab.len();
    let mut i: usize = 0;
    let mut all_eq = true;
    while i < n
        invariant
            n == ab@.len() == bb@.len(),
            i <= n,
            all_eq == (forall|j: int| 0 <= j < i ==> ab@[j] == bb@[j]),
        decreases n - i,
    {
        if *slice_index_get(ab, i) != *slice_index_get(bb, i) {
            all_eq = false;
        }
        i += 1;
    }
    if all_eq {
        assert(a.spec_bytes() =~= b.spec_bytes());
        assert(decode_utf8(encode_utf8(a@)) == decode_utf8(encode_utf8(b@)));
    } else {
        assert(a.spec_bytes() != b.spec_bytes());
        assert(a@ != b@);
    }
    all_eq
}

impl FilterType {
    /// The canonical lowercase snake-case name of this kind.
    pub fn as_str(&self) -> (r: &'static str)
        ensures
            r@ == spec_name(*self),
    {
        match self {
            FilterType::Grayscale => "grayscale",
            FilterType::Sepia => "sepia",
            FilterType::Invert => "invert",
            FilterType::Brightness => "brightness",
            FilterType::Contrast => "contrast",
            FilterType::Saturation => "saturation",
            FilterType::Blur => "blur",
            FilterType::Sharpen => "sharpen",
            FilterType::Vignette => "vignette",
            FilterType::Vintage => "vintage",
            FilterType::Warm => "warm",
            FilterType::Cool => "cool",
            FilterType::Posterize => "posterize",
            FilterType::Emboss => "emboss",
            FilterType::EdgeDetect => "edge_detect",
            FilterType::Noise => "noise",
            FilterType::Pixelate => "pixelate",
            FilterType::ChromaticAberration => "chromatic_aberration",
        }
    }

    /// Parses a canonical name back to its kind; any string outside the
    /// catalog yields `None`.
    pub fn from_string(s: &str) -> (r: Option<FilterType>)
        ensures
            r == spec_from_name(s@),
    {
        if str_eq(s, "grayscale") {
            Some(FilterType::Grayscale)
        } else if str_eq(s, "sepia") {
            Some(FilterType::Sepia)
        } else if str_eq(s, "invert") {
            Some(FilterType::Invert)
        } else if str_eq(s, "brightness") {
            Some(FilterType::Brightness)
        } else if str_eq(s, "contrast") {
            Some(FilterType::Contrast)
        } else if str_eq(s, "saturation") {
            Some(FilterType::Saturation)
        } else if str_eq(s, "blur") {
            Some(FilterType::Blur)
        } else if str_eq(s, "sharpen") {
            Some(FilterType::Sharpen)
        } else if str_eq(s, "vignette") {
            Some(FilterType::Vignette)
        } else if str_eq(s, "vintage") {
            Some(FilterType::Vintage)
        } else if str_eq(s, "warm") {
            Some(FilterType::Warm)
        } else if str_eq(s, "cool") {
            Some(FilterType::Cool)
        } else if str_eq(s, "posterize") {
            Some(FilterType::Posterize)
        } else if str_eq(s, "emboss") {
            Some(FilterType::Emboss)
        } else if str_eq(s, "edge_detect") {
            Some(FilterType::EdgeDetect)
        } else if str_eq(s, "noise") {
            Some(FilterType::Noise)
        } else if str_eq(s, "pixelate") {
            Some(FilterType::Pixelate)
        } else if str_eq(s, "chromatic_aberration") {
            Some(FilterType::ChromaticAberration)
        } else {
            None
        }
    }
}

/// Parsing a kind's canonical name returns exactly that kind: the
/// name-to-kind map inverts the kind-to-name map on the whole catalog.
pub proof fn lemma_name_round_trip(k: FilterType)
    ensures
        spec_from_name(spec_name(k)) == Some(k),
{
    reveal_catalog_names();
}

/// The inverse direction of the bijection: whenever parsing succeeds,
/// the parsed kind's canonical name is the parsed string, so distinct
/// kinds never share a name.
pub proof fn lemma_name_injective(s: Seq<char>, k: FilterType)
    requires
        spec_from_name(s) == Some(k),
    ensures
        s == spec_name(k),
{
    reveal_catalog_names();
}

/// Exactly the strings outside the catalog parse to `None`.
pub proof fn lemma_unknown_name(s: Seq<char>)
    ensures
        spec_from_name(s) is None <==> (forall|k: FilterType| s != spec_name(k)),
{
    if spec_from_name(s) is None {
        assert forall|k: FilterType| s != spec_name(k) by {
            reveal_catalog_names();
        }
    } else {
        let k = spec_from_name(s)->Some_0;
        lemma_name_injective(s, k);
    }
}

} // verus!
