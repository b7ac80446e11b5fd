//! The filter model: the supported color filters, their typed parameters,
//! and the rendering of each into an ffmpeg filter-expression fragment.
//!
//! Fractional parameters are carried as validated decimal text (see
//! [`crate::num::is_numeric_text`]); rendering re-emits that text verbatim.

use vstd::prelude::*;

use crate::mlt::{
    element_active, get_property_value, spec_element_active, spec_property_value, Element,
};
use crate::num::{
    check_numeric_text, is_numeric_text, parse_u32, spec_dec_digits, spec_parse_u32,
    u32_to_string, u64_to_string,
};
use crate::text::{lemma_join_push, spec_join, str_eq};

verus! {

/// Interpolation modes of the 3D LUT filter.
#[derive(Debug, Clone, Copy, PartialEq, Eq, Structural)]
pub enum LutInterpolation {
    Nearest,
    Trilinear,
    Tetrahedral,
}

impl LutInterpolation {
    /// The mode's name, as filter expressions and project files spell it.
    pub open spec fn spec_name(self) -> Seq<char> {
        match self {
            LutInterpolation::Nearest => "nearest"@,
            LutInterpolation::Trilinear => "trilinear"@,
            LutInterpolation::Tetrahedral => "tetrahedral"@,
        }
    }

    /// The mode's name, as filter expressions and project files spell it.
    pub fn name(&self) -> (r: &'static str)
        ensures
            r@ == self.spec_name(),
    {
        match self {
            LutInterpolation::Nearest => "nearest",
            LutInterpolation::Trilinear => "trilinear",
            LutInterpolation::Tetrahedral => "tetrahedral",
        }
    }
}

/// Exposure correction: an exposure offset and a black level.
#[derive(Debug, Clone, PartialEq)]
pub struct FilterExposure {
    pub is_active: bool,
    pub exposure: String,
    pub black: String,
}

impl FilterExposure {
    /// Both parameters hold numeric text.
    pub open spec fn wf(self) -> bool {
        is_numeric_text(self.exposure@) && is_numeric_text(self.black@)
    }

    /// The rendered filter-expression fragment.
    pub open spec fn spec_filter_string(self) -> Seq<char> {
        "exposure=exposure="@ + self.exposure@ + ":black="@ + self.black@
    }

    /// Render the filter-expression fragment.
    pub fn to_filter_string(&self) -> (r: String)
        ensures
            r@ == self.spec_filter_string(),
    {
        let mut r = String::from_str("exposure=exposure=");
        r.append(self.exposure.as_str());
        r.append(":black=");
        r.append(self.black.as_str());
        assert(r@ =~= self.spec_filter_string());
        r
    }
}

impl Default for FilterExposure {
    /// An inactive filter with zero exposure offset and black level.
    fn default() -> (r: Self)
        ensures
            !r.is_active,
            r.exposure@ == "0"@,
            r.black@ == "0"@,
            r.wf(),
    {
        proof {
            reveal_strlit("0");
            crate::num::lemma_digit_string_numeric("0"@);
        }
        FilterExposure { is_active: false, exposure: String::from_str("0"), black: String::from_str("0") }
    }
}

/// A 3D look-up table applied from a file.
#[derive(Debug, Clone, PartialEq)]
pub struct FilterLut {
    pub is_active: bool,
    pub file: String,
    pub interpolation: LutInterpolation,
}

impl FilterLut {
    /// The rendered filter-expression fragment.
    pub open spec fn spec_filter_string(self) -> Seq<char> {
        "lut3d=file="@ + self.file@ + ":interp="@ + self.interpolation.spec_name()
    }

    /// Render the filter-expression fragment.
    pub fn to_filter_string(&self) -> (r: String)
        ensures
            r@ == self.spec_filter_string(),
    {
        let mut r = String::from_str("lut3d=file=");
        r.append(self.file.as_str());
        r.append(":interp=");
        r.append(self.interpolation.name());
        assert(r@ =~= self.spec_filter_string());
        r
    }
}

impl Default for FilterLut {
    /// An inactive filter with no file and tetrahedral interpolation.
    fn default() -> (r: Self)
        ensures
            !r.is_active,
            r.file@ == Seq::<char>::empty(),
            r.interpolation == LutInterpolation::Tetrahedral,
    {
        FilterLut {
            is_active: false,
            file: String::new(),
            interpolation: LutInterpolation::Tetrahedral,
        }
    }
}

/// Scaling to a fixed width and height.
#[derive(Debug, Clone, PartialEq)]
pub struct FilterScale {
    pub is_active: bool,
    pub width: u64,
    pub height: u64,
}

impl FilterScale {
    /// The rendered filter-expression fragment.
    pub open spec fn spec_filter_string(self) -> Seq<char> {
        "scale="@ + spec_dec_digits(self.width as nat) + ":"@ + spec_dec_digits(
            self.height as nat,
        )
    }

    /// Render the filter-expression fragment.
    pub fn to_filter_string(&self) -> (r: String)
        ensures
            r@ == self.spec_filter_string(),
    {
        let mut r = String::from_str("scale=");
        r.append(u64_to_string(self.width).as_str());
        r.append(":");
        r.append(u64_to_string(self.height).as_str());
        assert(r@ =~= self.spec_filter_string());
        r
    }
}

impl Default for FilterScale {
    /// An inactive filter with zero width and height.
    fn default() -> (r: Self)
        ensures
            !r.is_active,
            r.width == 0,
            r.height == 0,
    {
        FilterScale { is_active: false, width: 0, height: 0 }
    }
}

/// Per-channel gamma values of the equalizer filter.
#[derive(Debug, Clone, PartialEq)]
pub struct ChannelGamma {
    pub red: String,
    pub green: String,
    pub blue: String,
}

impl ChannelGamma {
    /// All three values hold numeric text.
    pub open spec fn wf(self) -> bool {
        is_numeric_text(self.red@) && is_numeric_text(self.green@) && is_numeric_text(self.blue@)
    }
}

/// The equalizer filter: contrast, brightness, saturation and gamma, with
/// optional per-channel gamma values.
#[derive(Debug, Clone, PartialEq)]
pub struct FilterEq {
    pub is_active: bool,
    pub contrast: String,
    pub brightness: String,
    pub saturation: String,
    pub gamma: String,
    pub channel_gamma: Option<ChannelGamma>,
}

impl FilterEq {
    /// All parameters hold numeric text.
    pub open spec fn wf(self) -> bool {
        &&& is_numeric_text(self.contrast@)
        &&& is_numeric_text(self.brightness@)
        &&& is_numeric_text(self.saturation@)
        &&& is_numeric_text(self.gamma@)
        &&& match self.channel_gamma {
            Some(cg) => cg.wf(),
            None => true,
        }
    }

    /// The rendered filter-expression fragment; the per-channel part is
    /// present only when per-channel gammas are.
    pub open spec fn spec_filter_string(self) -> Seq<char> {
        let base = "eq=contrast="@ + self.contrast@ + ":brightness="@ + self.brightness@
            + ":saturation="@ + self.saturation@ + ":gamma="@ + self.gamma@;
        match self.channel_gamma {
            Some(cg) => base + ":gamma_r="@ + cg.red@ + ":gamma_g="@ + cg.green@ + ":gamma_b="@
                + cg.blue@,
            None => base,
        }
    }

    /// Render the filter-expression fragment.
    pub fn to_filter_string(&self) -> (r: String)
        ensures
            r@ == self.spec_filter_string(),
    {
        let mut r = String::from_str("eq=contrast=");
        r.append(self.contrast.as_str());
        r.append(":brightness=");
        r.append(self.brightness.as_str());
        r.append(":saturation=");
        r.append(self.saturation.as_str());
        r.append(":gamma=");
        r.append(self.gamma.as_str());
        match &self.channel_gamma {
            Some(cg) => {
                r.append(":gamma_r=");
                r.append(cg.red.as_str());
                r.append(":gamma_g=");
                r.append(cg.green.as_str());
                r.append(":gamma_b=");
                r.append(cg.blue.as_str());
            },
            None => {},
        }
        assert(r@ =~= self.spec_filter_string());
        r
    }
}

impl Default for FilterEq {
    /// An inactive filter with neutral settings: unit contrast, saturation
    /// and gammas, zero brightness.
    fn default() -> (r: Self)
        ensures
            !r.is_active,
            r.contrast@ == "1"@,
            r.brightness@ == "0"@,
            r.saturation@ == "1"@,
            r.gamma@ == "1"@,
            r.channel_gamma matches Some(cg) && cg.red@ == "1"@ && cg.green@ == "1"@ && cg.blue@
                == "1"@,
            r.wf(),
    {
        proof {
            reveal_strlit("0");
            reveal_strlit("1");
            crate::num::lemma_digit_string_numeric("0"@);
            crate::num::lemma_digit_string_numeric("1"@);
        }
        FilterEq {
            is_active: false,
            contrast: String::from_str("1"),
            brightness: String::from_str("0"),
            saturation: String::from_str("1"),
            gamma: String::from_str("1"),
            channel_gamma: Some(
                ChannelGamma {
                    red: String::from_str("1"),
                    green: String::from_str("1"),
                    blue: String::from_str("1"),
                },
            ),
        }
    }
}

/// Color temperature adjustment in kelvin, preserving lightness.
#[derive(Debug, Clone, PartialEq)]
pub struct FilterColortemp {
    pub is_active: bool,
    pub temperature: u32,
}

impl FilterColortemp {
    /// The rendered filter-expression fragment.
    pub open spec fn spec_filter_string(self) -> Seq<char> {
        "colortemperature=temperature="@ + spec_dec_digits(self.temperature as nat) + ":pl=1"@
    }

    /// Render the filter-expression fragment.
    pub fn to_filter_string(&self) -> (r: String)
        ensures
            r@ == self.spec_filter_string(),
    {
        let mut r = String::from_str("colortemperature=temperature=");
        r.append(u32_to_string(self.temperature).as_str());
        r.append(":pl=1");
        assert(r@ =~= self.spec_filter_string());
        r
    }
}

impl Default for FilterColortemp {
    /// An inactive filter at neutral daylight temperature.
    fn default() -> (r: Self)
        ensures
            !r.is_active,
            r.temperature == 6500,
    {
        FilterColortemp { is_active: false, temperature: 6500 }
    }
}

/// Color balance: red/green/blue offsets for shadows, midtones and
/// highlights. The lightness-preservation flag is not rendered.
#[derive(Debug, Clone, PartialEq)]
pub struct FilterColorBalance {
    pub is_active: bool,
    pub shadows_red: String,
    pub shadows_green: String,
    pub shadows_blue: String,
    pub midtones_red: String,
    pub midtones_green: String,
    pub midtones_blue: String,
    pub highlights_red: String,
    pub highlights_green: String,
    pub highlights_blue: String,
    pub preserve_lightness: bool,
}

impl FilterColorBalance {
    /// All nine offsets hold numeric text.
    pub open spec fn wf(self) -> bool {
        &&& is_numeric_text(self.shadows_red@)
        &&& is_numeric_text(self.shadows_green@)
        &&& is_numeric_text(self.shadows_blue@)
        &&& is_numeric_text(self.midtones_red@)
        &&& is_numeric_text(self.midtones_green@)
        &&& is_numeric_text(self.midtones_blue@)
        &&& is_numeric_text(self.highlights_red@)
        &&& is_numeric_text(self.highlights_green@)
        &&& is_numeric_text(self.highlights_blue@)
    }

    /// The rendered filter-expression fragment.
    pub open spec fn spec_filter_string(self) -> Seq<char> {
        "colorbalance=rs="@ + self.shadows_red@ + ":gs="@ + self.shadows_green@ + ":bs="@
            + self.shadows_blue@ + ":rm="@ + self.midtones_red@ + ":gm="@ + self.midtones_green@
            + ":bm="@ + self.midtones_blue@ + ":rh="@ + self.highlights_red@ + ":gh="@
            + self.highlights_green@ + ":bh="@ + self.highlights_blue@
    }

    /// Render the filter-expression fragment.
    pub fn to_filter_string(&self) -> (r: String)
        ensures
            r@ == self.spec_filter_string(),
    {
        let mut r = String::from_str("colorbalance=rs=");
        r.append(self.shadows_red.as_str());
        r.append(":gs=");
        r.append(self.shadows_green.as_str());
        r.append(":bs=");
        r.append(self.shadows_blue.as_str());
        r.append(":rm=");
        r.append(self.midtones_red.as_str());
        r.append(":gm=");
        r.append(self.midtones_green.as_str());
        r.append(":bm=");
        r.append(self.midtones_blue.as_str());
        r.append(":rh=");
        r.append(self.highlights_red.as_str());
        r.append(":gh=");
        r.append(self.highlights_green.as_str());
        r.append(":bh=");
        r.append(self.highlights_blue.as_str());
        assert(r@ =~= self.spec_filter_string());
        r
    }
}

impl Default for FilterColorBalance {
    /// An inactive filter with all offsets zero.
    fn default() -> (r: Self)
        ensures
            !r.is_active,
            !r.preserve_lightness,
            r.shadows_red@ == "0"@ && r.shadows_green@ == "0"@ && r.shadows_blue@ == "0"@,
            r.midtones_red@ == "0"@ && r.midtones_green@ == "0"@ && r.midtones_blue@ == "0"@,
            r.highlights_red@ == "0"@ && r.highlights_green@ == "0"@ && r.highlights_blue@
                == "0"@,
            r.wf(),
    {
        proof {
            reveal_strlit("0");
            crate::num::lemma_digit_string_numeric("0"@);
        }
        FilterColorBalance {
            is_active: false,
            shadows_red: String::from_str("0"),
            shadows_green: String::from_str("0"),
            shadows_blue: String::from_str("0"),
            midtones_red: String::from_str("0"),
            midtones_green: String::from_str("0"),
            midtones_blue: String::from_str("0"),
            highlights_red: String::from_str("0"),
            highlights_green: String::from_str("0"),
            highlights_blue: String::from_str("0"),
            preserve_lightness: false,
        }
    }
}

/// A raw filter expression written by the user and passed through as is.
#[derive(Debug, Clone, PartialEq)]
pub struct FilterCustom {
    pub is_active: bool,
    pub expression: String,
}

impl FilterCustom {
    /// The rendered filter-expression fragment: the stored text itself.
    pub open spec fn spec_filter_string(self) -> Seq<char> {
        self.expression@
    }

    /// Render the filter-expression fragment.
    pub fn to_filter_string(&self) -> (r: String)
        ensures
            r@ == self.spec_filter_string(),
    {
        self.expression.clone()
    }
}

impl Default for FilterCustom {
    /// An inactive filter with an empty expression.
    fn default() -> (r: Self)
        ensures
            !r.is_active,
            r.expression@ == Seq::<char>::empty(),
    {
        FilterCustom { is_active: false, expression: String::new() }
    }
}

/// One of the supported filters, as a closed tagged union.
#[derive(Debug, Clone, PartialEq)]
pub enum FilterSpec {
    Exposure(FilterExposure),
    Lut(FilterLut),
    Eq(FilterEq),
    ColorTemperature(FilterColortemp),
    ColorBalance(FilterColorBalance),
    Custom(FilterCustom),
}

impl FilterSpec {
    /// Whether the filter is enabled.
    pub open spec fn spec_is_active(self) -> bool {
        match self {
            FilterSpec::Exposure(f) => f.is_active,
            FilterSpec::Lut(f) => f.is_active,
            FilterSpec::Eq(f) => f.is_active,
            FilterSpec::ColorTemperature(f) => f.is_active,
            FilterSpec::ColorBalance(f) => f.is_active,
            FilterSpec::Custom(f) => f.is_active,
        }
    }

    /// Whether the filter is enabled.
    pub fn is_active(&self) -> (b: bool)
        ensures
            b == self.spec_is_active(),
    {
        match self {
            FilterSpec::Exposure(f) => f.is_active,
            FilterSpec::Lut(f) => f.is_active,
            FilterSpec::Eq(f) => f.is_active,
            FilterSpec::ColorTemperature(f) => f.is_active,
            FilterSpec::ColorBalance(f) => f.is_active,
            FilterSpec::Custom(f) => f.is_active,
        }
    }

    /// Every numeric parameter holds numeric text.
    pub open spec fn wf(self) -> bool {
        match self {
            FilterSpec::Exposure(f) => f.wf(),
            FilterSpec::Lut(_) => true,
            FilterSpec::Eq(f) => f.wf(),
            FilterSpec::ColorTemperature(_) => true,
            FilterSpec::ColorBalance(f) => f.wf(),
            FilterSpec::Custom(_) => true,
        }
    }

    /// The rendered filter-expression fragment of the wrapped filter.
    pub open spec fn spec_filter_string(self) -> Seq<char> {
        match self {
            FilterSpec::Exposure(f) => f.spec_filter_string(),
            FilterSpec::Lut(f) => f.spec_filter_string(),
            FilterSpec::Eq(f) => f.spec_filter_string(),
            FilterSpec::ColorTemperature(f) => f.spec_filter_string(),
            FilterSpec::ColorBalance(f) => f.spec_filter_string(),
            FilterSpec::Custom(f) => f.spec_filter_string(),
        }
    }

    /// Render the filter-expression fragment of the wrapped filter.
    pub fn to_filter_string(&self) -> (r: String)
        ensures
            r@ == self.spec_filter_string(),
    {
        match self {
            FilterSpec::Exposure(f) => f.to_filter_string(),
            FilterSpec::Lut(f) => f.to_filter_string(),
            FilterSpec::Eq(f) => f.to_filter_string(),
            FilterSpec::ColorTemperature(f) => f.to_filter_string(),
            FilterSpec::ColorBalance(f) => f.to_filter_string(),
            FilterSpec::Custom(f) => f.to_filter_string(),
        }
    }
}

/// The value under an optional property value, defaulting to empty text.
pub open spec fn val_of(o: Option<Seq<char>>) -> Seq<char> {
    match o {
        Some(v) => v,
        None => Seq::empty(),
    }
}

/// The property exists on `e` and its (stripped) value is numeric text.
pub open spec fn spec_prop_numeric(e: Element, name: Seq<char>) -> bool {
    match spec_property_value(e, name) {
        Some(v) => is_numeric_text(v),
        None => false,
    }
}

/// Read property `name` of `e` when it is present and numeric.
fn numeric_property(e: &Element, name: &str) -> (r: Option<String>)
    ensures
        (r is Some) == spec_prop_numeric(*e, name@),
        (match r {
            Some(v) => spec_property_value(*e, name@) == Some(v@),
            None => true,
        }),
{
    match get_property_value(e, name) {
        Some(v) => {
            if check_numeric_text(v.as_str()) {
                Some(v)
            } else {
                None
            }
        },
        None => None,
    }
}

/// Does `e` declare an `mlt_service` property equal to `service`?
fn has_service(e: &Element, service: &str) -> (r: bool)
    ensures
        r == (spec_property_value(*e, "mlt_service"@) == Some(service@)),
{
    match get_property_value(e, "mlt_service") {
        Some(s) => str_eq(s.as_str(), service),
        None => false,
    }
}

/// `e` declares the exposure service and readable numeric parameters.
pub open spec fn spec_exposure_ok(e: Element) -> bool {
    &&& spec_property_value(e, "mlt_service"@) == Some("avfilter.exposure"@)
    &&& spec_prop_numeric(e, "av.exposure"@)
    &&& spec_prop_numeric(e, "av.black"@)
}

/// `f` holds exactly what `e` declares for an exposure filter.
pub open spec fn spec_exposure_rel(e: Element, f: FilterExposure) -> bool {
    &&& f.is_active == spec_element_active(e)
    &&& Some(f.exposure@) == spec_property_value(e, "av.exposure"@)
    &&& Some(f.black@) == spec_property_value(e, "av.black"@)
}

impl FilterExposure {
    /// Read an exposure filter from an MLT `filter` element. `None` when
    /// the element is not an exposure filter or a parameter is missing or
    /// not numeric.
    pub fn from_element(e: &Element) -> (r: Option<FilterExposure>)
        ensures
            (r is Some) == spec_exposure_ok(*e),
            (match r {
                Some(f) => spec_exposure_rel(*e, f) && f.wf(),
                None => true,
            }),
    {
        if !has_service(e, "avfilter.exposure") {
            return None;
        }
        let exposure = match numeric_property(e, "av.exposure") {
            Some(v) => v,
            None => {
                return None;
            },
        };
        let black = match numeric_property(e, "av.black") {
            Some(v) => v,
            None => {
                return None;
            },
        };
        Some(FilterExposure { is_active: element_active(e), exposure, black })
    }
}

/// The interpolation mode that the property text `v` names, if any.
pub open spec fn spec_interp_of(v: Seq<char>) -> Option<LutInterpolation> {
    if v == "nearest"@ {
        Some(LutInterpolation::Nearest)
    } else if v == "trilinear"@ {
        Some(LutInterpolation::Trilinear)
    } else if v == "tetrahedral"@ {
        Some(LutInterpolation::Tetrahedral)
    } else {
        None
    }
}

/// A recognized interpolation mode renders back to the text that named it.
proof fn lemma_interp_name(v: Seq<char>, m: LutInterpolation)
    requires
        spec_interp_of(v) == Some(m),
    ensures
        m.spec_name() == v,
{
}

/// `e` declares the 3D LUT service, a file and a known interpolation.
pub open spec fn spec_lut_ok(e: Element) -> bool {
    &&& spec_property_value(e, "mlt_service"@) == Some("avfilter.lut3d"@)
    &&& spec_property_value(e, "av.file"@) is Some
    &&& (match spec_property_value(e, "av.interp"@) {
        Some(v) => spec_interp_of(v) is Some,
        None => false,
    })
}

/// `f` holds exactly what `e` declares for a 3D LUT filter.
pub open spec fn spec_lut_rel(e: Element, f: FilterLut) -> bool {
    &&& f.is_active == spec_element_active(e)
    &&& Some(f.file@) == spec_property_value(e, "av.file"@)
    &&& (match spec_property_value(e, "av.interp"@) {
        Some(v) => spec_interp_of(v) == Some(f.interpolation),
        None => false,
    })
}

impl FilterLut {
    /// Read a 3D LUT filter from an MLT `filter` element. `None` when the
    /// element is not a LUT filter, has no file, or names an unknown
    /// interpolation mode.
    pub fn from_element(e: &Element) -> (r: Option<FilterLut>)
        ensures
            (r is Some) == spec_lut_ok(*e),
            (match r {
                Some(f) => spec_lut_rel(*e, f),
                None => true,
            }),
    {
        if !has_service(e, "avfilter.lut3d") {
            return None;
        }
        let file = match get_property_value(e, "av.file") {
            Some(v) => v,
            None => {
                return None;
            },
        };
        let interp_s = match get_property_value(e, "av.interp") {
            Some(v) => v,
            None => {
                return None;
            },
        };
        let interpolation = if str_eq(interp_s.as_str(), "nearest") {
            LutInterpolation::Nearest
        } else if str_eq(interp_s.as_str(), "trilinear") {
            LutInterpolation::Trilinear
        } else if str_eq(interp_s.as_str(), "tetrahedral") {
            LutInterpolation::Tetrahedral
        } else {
            return None;
        };
        Some(FilterLut { is_active: element_active(e), file, interpolation })
    }
}

/// `e` declares the equalizer service and its four required numeric
/// parameters.
pub open spec fn spec_eq_ok(e: Element) -> bool {
    &&& spec_property_value(e, "mlt_service"@) == Some("avfilter.eq"@)
    &&& spec_prop_numeric(e, "av.contrast"@)
    &&& spec_prop_numeric(e, "av.brightness"@)
    &&& spec_prop_numeric(e, "av.saturation"@)
    &&& spec_prop_numeric(e, "av.gamma"@)
}

/// All three per-channel gamma properties of `e` are present and numeric.
pub open spec fn spec_eq_channel_ok(e: Element) -> bool {
    spec_prop_numeric(e, "av.gamma_r"@) && spec_prop_numeric(e, "av.gamma_g"@)
        && spec_prop_numeric(e, "av.gamma_b"@)
}

/// `f` holds exactly what `e` declares for an equalizer filter.
pub open spec fn spec_eq_rel(e: Element, f: FilterEq) -> bool {
    &&& f.is_active == spec_element_active(e)
    &&& Some(f.contrast@) == spec_property_value(e, "av.contrast"@)
    &&& Some(f.brightness@) == spec_property_value(e, "av.brightness"@)
    &&& Some(f.saturation@) == spec_property_value(e, "av.saturation"@)
    &&& Some(f.gamma@) == spec_property_value(e, "av.gamma"@)
    &&& (match f.channel_gamma {
        Some(cg) => spec_eq_channel_ok(e) && Some(cg.red@) == spec_property_value(
            e,
            "av.gamma_r"@,
        ) && Some(cg.green@) == spec_property_value(e, "av.gamma_g"@) && Some(cg.blue@)
            == spec_property_value(e, "av.gamma_b"@),
        None => !spec_eq_channel_ok(e),
    })
}

impl FilterEq {
    /// Read an equalizer filter from an MLT `filter` element. The four
    /// base parameters are required; the per-channel gammas are taken as
    /// a group when all three are present and numeric.
    pub fn from_element(e: &Element) -> (r: Option<FilterEq>)
        ensures
            (r is Some) == spec_eq_ok(*e),
            (match r {
                Some(f) => spec_eq_rel(*e, f) && f.wf(),
                None => true,
            }),
    {
        if !has_service(e, "avfilter.eq") {
            return None;
        }
        let contrast = match numeric_property(e, "av.contrast") {
            Some(v) => v,
            None => {
                return None;
            },
        };
        let brightness = match numeric_property(e, "av.brightness") {
            Some(v) => v,
            None => {
                return None;
            },
        };
        let saturation = match numeric_property(e, "av.saturation") {
            Some(v) => v,
            None => {
                return None;
            },
        };
        let gamma = match numeric_property(e, "av.gamma") {
            Some(v) => v,
            None => {
                return None;
            },
        };
        let gamma_r = numeric_property(e, "av.gamma_r");
        let gamma_g = numeric_property(e, "av.gamma_g");
        let gamma_b = numeric_property(e, "av.gamma_b");
        let channel_gamma = match (gamma_r, gamma_g, gamma_b) {
            (Some(red), Some(green), Some(blue)) => Some(ChannelGamma { red, green, blue }),
            _ => None,
        };
        Some(
            FilterEq {
                is_active: element_active(e),
                contrast,
                brightness,
                saturation,
                gamma,
                channel_gamma,
            },
        )
    }
}

/// `e` declares the color temperature service and a temperature that
/// reads as a 32-bit unsigned number.
pub open spec fn spec_colortemp_ok(e: Element) -> bool {
    &&& spec_property_value(e, "mlt_service"@) == Some("avfilter.colortemperature"@)
    &&& (match spec_property_value(e, "av.temperature"@) {
        Some(v) => spec_parse_u32(v) is Some,
        None => false,
    })
}

/// `f` holds exactly what `e` declares for a color temperature filter.
pub open spec fn spec_colortemp_rel(e: Element, f: FilterColortemp) -> bool {
    &&& f.is_active == spec_element_active(e)
    &&& (match spec_property_value(e, "av.temperature"@) {
        Some(v) => spec_parse_u32(v) == Some(f.temperature),
        None => false,
    })
}

impl FilterColortemp {
    /// Read a color temperature filter from an MLT `filter` element.
    pub fn from_element(e: &Element) -> (r: Option<FilterColortemp>)
        ensures
            (r is Some) == spec_colortemp_ok(*e),
            (match r {
                Some(f) => spec_colortemp_rel(*e, f),
                None => true,
            }),
    {
        if !has_service(e, "avfilter.colortemperature") {
            return None;
        }
        let temperature = match get_property_value(e, "av.temperature") {
            Some(v) => match parse_u32(v.as_str()) {
                Some(t) => t,
                None => {
                    return None;
                },
            },
            None => {
                return None;
            },
        };
        Some(FilterColortemp { is_active: element_active(e), temperature })
    }
}

/// Some supported filter kind recognizes `e`.
pub open spec fn spec_recognized(e: Element) -> bool {
    spec_lut_ok(e) || spec_eq_ok(e) || spec_exposure_ok(e) || spec_colortemp_ok(e)
}

/// The fragment a recognized filter element renders to. Meaningful only
/// when `spec_recognized(e)` holds; the kinds are tried in the fixed
/// priority order (LUT, equalizer, exposure, color temperature).
pub open spec fn spec_element_filter_string(e: Element) -> Seq<char> {
    if spec_lut_ok(e) {
        "lut3d=file="@ + val_of(spec_property_value(e, "av.file"@)) + ":interp="@ + val_of(
            spec_property_value(e, "av.interp"@),
        )
    } else if spec_eq_ok(e) {
        let base = "eq=contrast="@ + val_of(spec_property_value(e, "av.contrast"@))
            + ":brightness="@ + val_of(spec_property_value(e, "av.brightness"@)) + ":saturation="@
            + val_of(spec_property_value(e, "av.saturation"@)) + ":gamma="@ + val_of(
            spec_property_value(e, "av.gamma"@),
        );
        if spec_eq_channel_ok(e) {
            base + ":gamma_r="@ + val_of(spec_property_value(e, "av.gamma_r"@)) + ":gamma_g="@
                + val_of(spec_property_value(e, "av.gamma_g"@)) + ":gamma_b="@ + val_of(
                spec_property_value(e, "av.gamma_b"@),
            )
        } else {
            base
        }
    } else if spec_exposure_ok(e) {
        "exposure=exposure="@ + val_of(spec_property_value(e, "av.exposure"@)) + ":black="@
            + val_of(spec_property_value(e, "av.black"@))
    } else {
        "colortemperature=temperature="@ + (match spec_parse_u32(
            val_of(spec_property_value(e, "av.temperature"@)),
        ) {
            Some(t) => spec_dec_digits(t as nat),
            None => Seq::empty(),
        }) + ":pl=1"@
    }
}

impl FilterSpec {
    /// Try each supported filter kind on `e`, in the fixed priority order
    /// (LUT, equalizer, exposure, color temperature); the first kind that
    /// recognizes the element wins.
    pub fn from_element(e: &Element) -> (r: Option<FilterSpec>)
        ensures
            (r is Some) == spec_recognized(*e),
            (match r {
                Some(f) => f.spec_is_active() == spec_element_active(*e) && f.spec_filter_string()
                    == spec_element_filter_string(*e) && f.wf(),
                None => true,
            }),
            spec_lut_ok(*e) ==> (r matches Some(FilterSpec::Lut(f)) && spec_lut_rel(*e, f)),
            !spec_lut_ok(*e) && spec_eq_ok(*e) ==> (r matches Some(FilterSpec::Eq(f))
                && spec_eq_rel(*e, f)),
            !spec_lut_ok(*e) && !spec_eq_ok(*e) && spec_exposure_ok(*e) ==> (r matches Some(
                FilterSpec::Exposure(f),
            ) && spec_exposure_rel(*e, f)),
            !spec_lut_ok(*e) && !spec_eq_ok(*e) && !spec_exposure_ok(*e) && spec_colortemp_ok(*e)
                ==> (r matches Some(FilterSpec::ColorTemperature(f)) && spec_colortemp_rel(*e, f)),
    {
        if let Some(f) = FilterLut::from_element(e) {
            proof {
                match spec_property_value(*e, "av.interp"@) {
                    Some(v) => lemma_interp_name(v, f.interpolation),
                    None => (),
                }
            }
            return Some(FilterSpec::Lut(f));
        }
        if let Some(f) = FilterEq::from_element(e) {
            return Some(FilterSpec::Eq(f));
        }
        if let Some(f) = FilterExposure::from_element(e) {
            return Some(FilterSpec::Exposure(f));
        }
        if let Some(f) = FilterColortemp::from_element(e) {
            return Some(FilterSpec::ColorTemperature(f));
        }
        None
    }
}

/// The filter-expression fragments of the active filters of `fs`, in order.
pub open spec fn spec_active_strings(fs: Seq<FilterSpec>) -> Seq<Seq<char>>
    decreases fs.len(),
{
    if fs.len() == 0 {
        Seq::empty()
    } else {
        let rest = spec_active_strings(fs.drop_last());
        if fs.last().spec_is_active() {
            rest.push(fs.last().spec_filter_string())
        } else {
            rest
        }
    }
}

/// Render the active filters of `fs` and join them with commas.
pub fn join_active_strings(fs: &Vec<FilterSpec>) -> (r: String)
    ensures
        r@ == spec_join(spec_active_strings(fs@), ','),
{
    let mut r = String::new();
    let mut any = false;
    let mut i: usize = 0;
    while i < fs.len()
        invariant
            i <= fs.len(),
            r@ == spec_join(spec_active_strings(fs@.take(i as int)), ','),
            any == (spec_active_strings(fs@.take(i as int)).len() > 0),
        decreases fs.len() - i,
    {
        let ghost pre = spec_active_strings(fs@.take(i as int));
        proof {
            assert(fs@.take(i + 1).drop_last() =~= fs@.take(i as int));
            assert(fs@.take(i + 1).last() == fs@[i as int]);
        }
        let f = &fs[i];
        if f.is_active() {
            let s = f.to_filter_string();
            proof {
                lemma_join_push(pre, s@, ',');
                reveal_strlit(",");
            }
            if any {
                r.append(",");
                assert(","@ =~= seq![',']);
            }
            r.append(s.as_str());
            any = true;
        }
        i += 1;
    }
    proof {
        assert(fs@.take(fs@.len() as int) =~= fs@);
    }
    r
}

/// The filters pane: an ordered list of configured filters.
#[derive(Debug, Clone, PartialEq)]
pub struct FilterOption {
    pub filters: Vec<FilterSpec>,
}

impl FilterOption {
    /// Command-line arguments: nothing when no filter is active, else
    /// `-vf` followed by the comma-joined active filter expressions.
    pub fn to_option_args(&self) -> (r: Vec<String>)
        ensures
            r.deep_view() == (if spec_active_strings(self.filters@).len() == 0 {
                Seq::<Seq<char>>::empty()
            } else {
                seq!["-vf"@, spec_join(spec_active_strings(self.filters@), ',')]
            }),
    {
        let joined = join_active_strings(&self.filters);
        let mut r: Vec<String> = Vec::new();
        let mut active_any = false;
        let mut i: usize = 0;
        while i < self.filters.len()
            invariant
                i <= self.filters.len(),
                active_any == (spec_active_strings(self.filters@.take(i as int)).len() > 0),
            decreases self.filters.len() - i,
        {
            proof {
                assert(self.filters@.take(i + 1).drop_last() =~= self.filters@.take(i as int));
                assert(self.filters@.take(i + 1).last() == self.filters@[i as int]);
            }
            if self.filters[i].is_active() {
                active_any = true;
            }
            i += 1;
        }
        proof {
            assert(self.filters@.take(self.filters@.len() as int) =~= self.filters@);
        }
        if !active_any {
            assert(r.deep_view() =~= Seq::<Seq<char>>::empty());
            return r;
        }
        r.push(String::from_str("-vf"));
        r.push(joined);
        assert(r.deep_view() =~= seq![
            "-vf"@,
            spec_join(spec_active_strings(self.filters@), ','),
        ]);
        r
    }
}

impl Default for FilterOption {
    /// No filters configured.
    fn default() -> (r: Self)
        ensures
            r.filters@.len() == 0,
    {
        FilterOption { filters: Vec::new() }
    }
}

/// The seek option: skip a number of seconds before the first frame.
#[derive(Debug, Clone, PartialEq)]
pub struct SkipOption {
    pub seconds: u64,
}

impl SkipOption {
    /// Command-line arguments: `-ss` and the number of seconds.
    pub fn to_option_args(&self) -> (r: Vec<String>)
        ensures
            r.deep_view() == seq!["-ss"@, spec_dec_digits(self.seconds as nat)],
    {
        let mut r: Vec<String> = Vec::new();
        r.push(String::from_str("-ss"));
        r.push(u64_to_string(self.seconds));
        assert(r.deep_view() =~= seq!["-ss"@, spec_dec_digits(self.seconds as nat)]);
        r
    }
}

impl Default for SkipOption {
    /// Skip nothing.
    fn default() -> (r: Self)
        ensures
            r.seconds == 0,
    {
        SkipOption { seconds: 0 }
    }
}

/// The frame-count option: stop after a number of video frames.
#[derive(Debug, Clone, PartialEq)]
pub struct NumberOfFramesOption {
    pub frames: u64,
}

impl NumberOfFramesOption {
    /// Command-line arguments: `-frames:v` and the frame count.
    pub fn to_option_args(&self) -> (r: Vec<String>)
        ensures
            r.deep_view() == seq!["-frames:v"@, spec_dec_digits(self.frames as nat)],
    {
        let mut r: Vec<String> = Vec::new();
        r.push(String::from_str("-frames:v"));
        r.push(u64_to_string(self.frames));
        assert(r.deep_view() =~= seq!["-frames:v"@, spec_dec_digits(self.frames as nat)]);
        r
    }
}

impl Default for NumberOfFramesOption {
    /// No frame limit configured.
    fn default() -> (r: Self)
        ensures
            r.frames == 0,
    {
        NumberOfFramesOption { frames: 0 }
    }
}

/// The encoder option: a free-form `-c:v` expression.
#[derive(Debug, Clone, PartialEq)]
pub struct Encoder {
    pub expression: String,
}

impl Encoder {
    /// Command-line arguments: nothing when the expression is empty, else
    /// `-c:v` and the expression.
    pub fn to_option_args(&self) -> (r: Vec<String>)
        ensures
            r.deep_view() == (if self.expression@.len() == 0 {
                Seq::<Seq<char>>::empty()
            } else {
                seq!["-c:v"@, self.expression@]
            }),
    {
        let mut r: Vec<String> = Vec::new();
        if self.expression.as_str().is_empty() {
            assert(r.deep_view() =~= Seq::<Seq<char>>::empty());
            return r;
        }
        r.push(String::from_str("-c:v"));
        r.push(self.expression.clone());
        assert(r.deep_view() =~= seq!["-c:v"@, self.expression@]);
        r
    }
}

impl Default for Encoder {
    /// An empty encoder expression.
    fn default() -> (r: Self)
        ensures
            r.expression@ == Seq::<char>::empty(),
    {
        Encoder { expression: String::new() }
    }
}

} // verus!
