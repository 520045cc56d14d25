//! The configuration file: one global section and any number of
//! `[graphic]` sections of `parameter = value` lines.
use vstd::prelude::*;

use crate::color::{hex_color_or, hex_color_range, hex_rgb, lemma_hex_rgb_roundtrip, Color};
use crate::text::{
    chars_eq, chars_of, contains, find, find_from, find_in_range, lines, lines_from, lowercase,
    lemma_lines_append, lemma_find_before_cr, lemma_trim_push_whitespace, decimal, lemma_parse_usize_decimal, lemma_lines_single, lemma_lines_unterminated,
    terminated_line, matches_at, next_line, ascii_lower, is_ascii_text, parse_usize, parse_usize_range, range_eq, spec_lowercase, split, split_once,
    is_in_class, is_whitespace, trim, trim_class, trim_end, trim_range, trim_start, CharClass,
};

verus! {

// ---------------------------------------------------------------------------
// Types
// ---------------------------------------------------------------------------

/// What a graphic element shows.
#[derive(Clone, Copy, Debug, PartialEq, Eq, Structural)]
pub enum GraphicType {
    Spectrogram,
    Waveform,
    Timeline,
}

/// Which part of the window a graphic element covers.
#[derive(Clone, Copy, Debug, PartialEq, Eq, Structural)]
pub enum GraphicPosition {
    Full,
    Top,
    Bottom,
    Left,
    Right,
    TopLeft,
    TopRight,
    BottomLeft,
    BottomRight,
}

/// The overall shape a graphic element is drawn in.
#[derive(Clone, Copy, Debug, PartialEq, Eq, Structural)]
pub enum GraphicShape {
    Line,
    Circle,
}

/// How the samples of a graphic element are drawn.
#[derive(Clone, Copy, Debug, PartialEq, Eq, Structural)]
pub enum GraphicStyle {
    Lines,
    Graph,
    Dots,
    DotsSingle,
}

/// The direction along which the colours of a scheme run.
#[derive(Clone, Copy, Debug, PartialEq, Eq, Structural)]
pub enum Orientation {
    Vertical,
    Horizintal,
}

/// The colours a graphic element is painted with.
#[derive(Clone, Debug)]
pub struct ColorScheme {
    pub colors: Vec<Color>,
    pub orientation: Orientation,
    pub blend: bool,
    pub glow: bool,
}

/// The settings of one graphic element.
#[derive(Clone, Debug)]
pub struct GraphicConfig {
    pub graphics_type: GraphicType,
    pub background_color: Color,
    pub position: GraphicPosition,
    pub shape: GraphicShape,
    pub style: GraphicStyle,
    pub color_scheme: ColorScheme,
}

/// The settings of a session.
///
/// The settings that are not plain values keep the text they were given:
/// `sample_interpolation_scalar`, `line_width` and `gain` are the text of a
/// floating-point number (a missing or unreadable one stands for 0.75, for
/// the built-in line width, and for 1.0), and `background_image` is the path
/// of an image file.
#[derive(Debug)]
pub struct Config {
    pub sample_count: usize,
    pub sample_interpolation_scalar: Option<String>,
    pub background_color: Color,
    pub background_image: Option<String>,
    pub timeline_length: usize,
    pub line_width: Option<String>,
    pub gain: Option<String>,
    pub graphics: Vec<GraphicConfig>,
}

/// A `parameter = value` line whose parameter the section does not know:
/// the parameter as it was compared (trimmed, lower case) and the trimmed
/// value.
#[derive(Clone, Debug)]
pub struct UnknownSetting {
    pub parameter: String,
    pub value: String,
}

// ---------------------------------------------------------------------------
// Models
// ---------------------------------------------------------------------------

pub struct ColorSchemeModel {
    pub colors: Seq<Color>,
    pub orientation: Orientation,
    pub blend: bool,
    pub glow: bool,
}

pub struct GraphicConfigModel {
    pub graphics_type: GraphicType,
    pub background_color: Color,
    pub position: GraphicPosition,
    pub shape: GraphicShape,
    pub style: GraphicStyle,
    pub color_scheme: ColorSchemeModel,
}

pub struct ConfigModel {
    pub sample_count: usize,
    pub sample_interpolation_scalar: Option<Seq<char>>,
    pub background_color: Color,
    pub background_image: Option<Seq<char>>,
    pub timeline_length: usize,
    pub line_width: Option<Seq<char>>,
    pub gain: Option<Seq<char>>,
    pub graphics: Seq<GraphicConfigModel>,
}

impl View for ColorScheme {
    type V = ColorSchemeModel;

    open spec fn view(&self) -> ColorSchemeModel {
        ColorSchemeModel {
            colors: self.colors@,
            orientation: self.orientation,
            blend: self.blend,
            glow: self.glow,
        }
    }
}

impl View for GraphicConfig {
    type V = GraphicConfigModel;

    open spec fn view(&self) -> GraphicConfigModel {
        GraphicConfigModel {
            graphics_type: self.graphics_type,
            background_color: self.background_color,
            position: self.position,
            shape: self.shape,
            style: self.style,
            color_scheme: self.color_scheme@,
        }
    }
}

pub open spec fn text_view(s: Option<String>) -> Option<Seq<char>> {
    match s {
        Some(t) => Some(t@),
        None => None,
    }
}

pub open spec fn graphics_view(gs: Seq<GraphicConfig>) -> Seq<GraphicConfigModel> {
    gs.map_values(|g: GraphicConfig| g@)
}

impl View for Config {
    type V = ConfigModel;

    open spec fn view(&self) -> ConfigModel {
        ConfigModel {
            sample_count: self.sample_count,
            sample_interpolation_scalar: text_view(self.sample_interpolation_scalar),
            background_color: self.background_color,
            background_image: text_view(self.background_image),
            timeline_length: self.timeline_length,
            line_width: text_view(self.line_width),
            gain: text_view(self.gain),
            graphics: graphics_view(self.graphics@),
        }
    }
}

impl View for UnknownSetting {
    type V = (Seq<char>, Seq<char>);

    open spec fn view(&self) -> (Seq<char>, Seq<char>) {
        (self.parameter@, self.value@)
    }
}

pub open spec fn unknown_view(us: Seq<UnknownSetting>) -> Seq<(Seq<char>, Seq<char>)> {
    us.map_values(|u: UnknownSetting| u@)
}

// ---------------------------------------------------------------------------
// Defaults
// ---------------------------------------------------------------------------

/// The background both the window and a graphic element start with.
pub open spec fn default_background() -> Color {
    Color { r: 17, g: 17, b: 26, a: 255 }
}

pub open spec fn default_config() -> ConfigModel {
    ConfigModel {
        sample_count: 200,
        sample_interpolation_scalar: None,
        background_color: default_background(),
        background_image: None,
        timeline_length: 400,
        line_width: None,
        gain: None,
        graphics: seq![],
    }
}

pub open spec fn default_colors() -> Seq<Color> {
    seq![
        Color { r: 204, g: 47, b: 0, a: 255 },
        Color { r: 70, g: 90, b: 178, a: 255 },
        Color { r: 0, g: 118, b: 104, a: 255 },
    ]
}

pub open spec fn default_graphic() -> GraphicConfigModel {
    GraphicConfigModel {
        graphics_type: GraphicType::Timeline,
        background_color: default_background(),
        position: GraphicPosition::Full,
        shape: GraphicShape::Line,
        style: GraphicStyle::Graph,
        color_scheme: ColorSchemeModel {
            colors: default_colors(),
            orientation: Orientation::Horizintal,
            blend: true,
            glow: false,
        },
    }
}

// ---------------------------------------------------------------------------
// Settings
// ---------------------------------------------------------------------------

/// Where a comment starts in `v`, looking from `i` on: the first `#` that
/// starts the value or follows white space; the length of `v` if there is
/// none.
pub open spec fn comment_start(v: Seq<char>, i: int) -> int
    decreases v.len() - i,
{
    if i < 0 || i >= v.len() {
        v.len() as int
    } else if v[i] == '#' && (i == 0 || is_whitespace(v[i - 1])) {
        i
    } else {
        comment_start(v, i + 1)
    }
}

/// The value a setting is given: the text before a trailing `# comment`,
/// trimmed.
pub open spec fn setting_value(v: Seq<char>) -> Seq<char> {
    trim(v.take(comment_start(v, 0)))
}

/// The name a parameter is looked up by: trimmed and in lower case.
pub open spec fn setting_key(parameter: Seq<char>) -> Seq<char> {
    spec_lowercase(trim(parameter))
}

pub open spec fn config_key_known(key: Seq<char>) -> bool {
    ||| key == "sample_count"@
    ||| key == "sample_interpolation_scalar"@
    ||| key == "background_color"@
    ||| key == "background_image"@
    ||| key == "timeline_length"@
    ||| key == "line_width"@
    ||| key == "gain"@
}

/// The global settings after `key = value` (value already trimmed).
pub open spec fn set_config(c: ConfigModel, key: Seq<char>, value: Seq<char>) -> ConfigModel {
    if key == "sample_count"@ {
        ConfigModel {
            sample_count: match parse_usize(value) {
                Some(n) => n,
                None => 200,
            },
            ..c
        }
    } else if key == "sample_interpolation_scalar"@ {
        ConfigModel { sample_interpolation_scalar: Some(value), ..c }
    } else if key == "background_color"@ {
        ConfigModel {
            background_color: hex_color_or(value, Color { r: 0, g: 0, b: 0, a: 255 }),
            ..c
        }
    } else if key == "background_image"@ {
        ConfigModel { background_image: Some(value), ..c }
    } else if key == "timeline_length"@ {
        ConfigModel {
            timeline_length: match parse_usize(value) {
                Some(n) => n,
                None => 400,
            },
            ..c
        }
    } else if key == "line_width"@ {
        ConfigModel { line_width: Some(value), ..c }
    } else if key == "gain"@ {
        ConfigModel { gain: Some(value), ..c }
    } else {
        c
    }
}

pub open spec fn graphic_key_known(key: Seq<char>) -> bool {
    ||| key == "background_color"@
    ||| key == "position"@
    ||| key == "shape"@
    ||| key == "style"@
    ||| key == "type"@
    ||| key == "color_scheme"@
    ||| key == "color_blend"@
    ||| key == "color_glow"@
}

pub open spec fn position_named(v: Seq<char>) -> GraphicPosition {
    if v == "full"@ {
        GraphicPosition::Full
    } else if v == "top"@ {
        GraphicPosition::Top
    } else if v == "bottom"@ {
        GraphicPosition::Bottom
    } else if v == "left"@ {
        GraphicPosition::Left
    } else if v == "right"@ {
        GraphicPosition::Right
    } else if v == "topleft"@ {
        GraphicPosition::TopLeft
    } else if v == "topright"@ {
        GraphicPosition::TopRight
    } else if v == "bottomleft"@ {
        GraphicPosition::BottomLeft
    } else if v == "bottomright"@ {
        GraphicPosition::BottomRight
    } else {
        GraphicPosition::Full
    }
}

pub open spec fn shape_named(v: Seq<char>) -> GraphicShape {
    if v == "line"@ {
        GraphicShape::Line
    } else if v == "circle"@ {
        GraphicShape::Circle
    } else {
        GraphicShape::Line
    }
}

pub open spec fn style_named(v: Seq<char>) -> GraphicStyle {
    if v == "lines"@ {
        GraphicStyle::Lines
    } else if v == "graph"@ {
        GraphicStyle::Graph
    } else if v == "dots"@ {
        GraphicStyle::Dots
    } else if v == "dots_single"@ {
        GraphicStyle::DotsSingle
    } else {
        GraphicStyle::Lines
    }
}

/// The element type a `type` value names: `timeline`, `spectrogram` or
/// `waveform`, each also with a capital first letter (`Timeline`,
/// `Spectrogram`, `Waveform`); any other value names a timeline.
pub open spec fn type_named(v: Seq<char>) -> GraphicType {
    if v == "timeline"@ || v == "Timeline"@ {
        GraphicType::Timeline
    } else if v == "spectrogram"@ || v == "Spectrogram"@ {
        GraphicType::Spectrogram
    } else if v == "waveform"@ || v == "Waveform"@ {
        GraphicType::Waveform
    } else {
        GraphicType::Timeline
    }
}

/// The colours of a `color_scheme` value such as `[02A797, 865991]`: the
/// brackets at either end removed, the rest split at `", "`, and each piece
/// read as a hexadecimal colour, turquoise where it is none.
pub open spec fn scheme_colors(v: Seq<char>) -> Seq<Color> {
    split(trim_class(v, CharClass::SquareBracket), ", "@).map_values(
        |piece: Seq<char>| hex_color_or(piece, Color { r: 0x40, g: 0xe0, b: 0xd0, a: 255 }),
    )
}

/// The settings of a graphic element after `key = value` (value already
/// trimmed).
pub open spec fn set_graphic(g: GraphicConfigModel, key: Seq<char>, value: Seq<char>) -> GraphicConfigModel {
    if key == "background_color"@ {
        GraphicConfigModel {
            background_color: if value == "none"@ {
                Color { r: 0, g: 0, b: 0, a: 0 }
            } else {
                hex_color_or(value, Color { r: 255, g: 255, b: 255, a: 255 })
            },
            ..g
        }
    } else if key == "position"@ {
        GraphicConfigModel { position: position_named(value), ..g }
    } else if key == "shape"@ {
        GraphicConfigModel { shape: shape_named(value), ..g }
    } else if key == "style"@ {
        GraphicConfigModel { style: style_named(value), ..g }
    } else if key == "type"@ {
        GraphicConfigModel { graphics_type: type_named(value), ..g }
    } else if key == "color_scheme"@ {
        GraphicConfigModel {
            color_scheme: ColorSchemeModel { colors: scheme_colors(value), ..g.color_scheme },
            ..g
        }
    } else if key == "color_blend"@ {
        GraphicConfigModel {
            color_scheme: ColorSchemeModel { blend: value == "true"@, ..g.color_scheme },
            ..g
        }
    } else if key == "color_glow"@ {
        GraphicConfigModel {
            color_scheme: ColorSchemeModel { glow: value == "true"@, ..g.color_scheme },
            ..g
        }
    } else {
        g
    }
}

// ---------------------------------------------------------------------------
// Reading one setting
// ---------------------------------------------------------------------------

/// The lookup name of `parameter`, as a string and as characters.
fn read_key(parameter: &str) -> (r: (String, Vec<char>))
    ensures
        r.0@ == setting_key(parameter@),
        r.1@ == r.0@,
        is_ascii_text(trim(parameter@)) ==> setting_key(parameter@) == trim(parameter@).map_values(
            |c: char| ascii_lower(c),
        ),
{
    let pc = chars_of(parameter);
    proof {
        assert(pc@.subrange(0, pc@.len() as int) =~= pc@);
    }
    let (a, b) = trim_range(&pc, 0, pc.len(), CharClass::Whitespace);
    let lower = lowercase(parameter.substring_char(a, b));
    let kc = chars_of(lower.as_str());
    (lower, kc)
}

/// The characters of `value` and the range of them that is the setting's
/// value.
fn read_value(value: &str) -> (r: (Vec<char>, usize, usize))
    ensures
        r.1 <= r.2 <= r.0.len(),
        r.0@ == value@,
        r.0@.subrange(r.1 as int, r.2 as int) == setting_value(value@),
{
    let vc = chars_of(value);
    let mut e: usize = 0;
    while e < vc.len() && !(vc[e] == '#' && (e == 0 || is_in_class(vc[e - 1], CharClass::Whitespace)))
        invariant
            e <= vc.len(),
            comment_start(vc@, 0) == comment_start(vc@, e as int),
        decreases vc.len() - e,
    {
        e += 1;
    }
    proof {
        assert(vc@.subrange(0, e as int) =~= vc@.take(comment_start(vc@, 0)));
    }
    let (c, d) = trim_range(&vc, 0, e, CharClass::Whitespace);
    (vc, c, d)
}

fn unknown_setting(key: String, value: &str, c: usize, d: usize) -> (u: UnknownSetting)
    requires
        c <= d <= value@.len(),
    ensures
        u@ == (key@, value@.subrange(c as int, d as int)),
{
    UnknownSetting { parameter: key, value: value.substring_char(c, d).to_owned() }
}

impl Config {
    /// The settings a session starts with.
    pub fn default() -> (c: Config)
        ensures
            c@ == default_config(),
    {
        let c = Config {
            sample_count: 200,
            sample_interpolation_scalar: None,
            background_color: Color { r: 17, g: 17, b: 26, a: 255 },
            background_image: None,
            timeline_length: 400,
            line_width: None,
            gain: None,
            graphics: Vec::new(),
        };
        assert(c@.graphics =~= seq![]);
        c
    }

    /// Applies one `parameter = value` line of the global section. The
    /// parameter is trimmed and compared in lower case, the value is
    /// trimmed. A parameter the section does not know changes nothing and is
    /// handed back.
    pub fn modify_parameter(&mut self, parameter: &str, value: &str) -> (u: Option<UnknownSetting>)
        ensures
            final(self)@ == set_config(old(self)@, setting_key(parameter@), setting_value(value@)),
            u is Some <==> !config_key_known(setting_key(parameter@)),
            u matches Some(x) ==> x@ == (setting_key(parameter@), setting_value(value@)),
            is_ascii_text(trim(parameter@)) ==> setting_key(parameter@) == trim(parameter@).map_values(
                |c: char| ascii_lower(c),
            ),
    {
        let (key, kc) = read_key(parameter);
        let (vc, c, d) = read_value(value);
        if chars_eq(&kc, "sample_count") {
            self.sample_count = match parse_usize_range(&vc, c, d) {
                Some(n) => n,
                None => 200,
            };
        } else if chars_eq(&kc, "sample_interpolation_scalar") {
            self.sample_interpolation_scalar = Some(value.substring_char(c, d).to_owned());
        } else if chars_eq(&kc, "background_color") {
            self.background_color = match hex_color_range(&vc, c, d) {
                Some(color) => color,
                None => Color::black(),
            };
        } else if chars_eq(&kc, "background_image") {
            self.background_image = Some(value.substring_char(c, d).to_owned());
        } else if chars_eq(&kc, "timeline_length") {
            self.timeline_length = match parse_usize_range(&vc, c, d) {
                Some(n) => n,
                None => 400,
            };
        } else if chars_eq(&kc, "line_width") {
            self.line_width = Some(value.substring_char(c, d).to_owned());
        } else if chars_eq(&kc, "gain") {
            self.gain = Some(value.substring_char(c, d).to_owned());
        } else {
            return Some(unknown_setting(key, value, c, d));
        }
        None
    }
}

fn position_of(v: &Vec<char>, c: usize, d: usize) -> (p: GraphicPosition)
    requires
        c <= d <= v.len(),
    ensures
        p == position_named(v@.subrange(c as int, d as int)),
{
    if range_eq(v, c, d, "full") {
        GraphicPosition::Full
    } else if range_eq(v, c, d, "top") {
        GraphicPosition::Top
    } else if range_eq(v, c, d, "bottom") {
        GraphicPosition::Bottom
    } else if range_eq(v, c, d, "left") {
        GraphicPosition::Left
    } else if range_eq(v, c, d, "right") {
        GraphicPosition::Right
    } else if range_eq(v, c, d, "topleft") {
        GraphicPosition::TopLeft
    } else if range_eq(v, c, d, "topright") {
        GraphicPosition::TopRight
    } else if range_eq(v, c, d, "bottomleft") {
        GraphicPosition::BottomLeft
    } else if range_eq(v, c, d, "bottomright") {
        GraphicPosition::BottomRight
    } else {
        GraphicPosition::Full
    }
}

fn shape_of(v: &Vec<char>, c: usize, d: usize) -> (s: GraphicShape)
    requires
        c <= d <= v.len(),
    ensures
        s == shape_named(v@.subrange(c as int, d as int)),
{
    if range_eq(v, c, d, "line") {
        GraphicShape::Line
    } else if range_eq(v, c, d, "circle") {
        GraphicShape::Circle
    } else {
        GraphicShape::Line
    }
}

fn style_of(v: &Vec<char>, c: usize, d: usize) -> (s: GraphicStyle)
    requires
        c <= d <= v.len(),
    ensures
        s == style_named(v@.subrange(c as int, d as int)),
{
    if range_eq(v, c, d, "lines") {
        GraphicStyle::Lines
    } else if range_eq(v, c, d, "graph") {
        GraphicStyle::Graph
    } else if range_eq(v, c, d, "dots") {
        GraphicStyle::Dots
    } else if range_eq(v, c, d, "dots_single") {
        GraphicStyle::DotsSingle
    } else {
        GraphicStyle::Lines
    }
}

fn type_of(v: &Vec<char>, c: usize, d: usize) -> (t: GraphicType)
    requires
        c <= d <= v.len(),
    ensures
        t == type_named(v@.subrange(c as int, d as int)),
{
    if range_eq(v, c, d, "timeline") || range_eq(v, c, d, "Timeline") {
        GraphicType::Timeline
    } else if range_eq(v, c, d, "spectrogram") || range_eq(v, c, d, "Spectrogram") {
        GraphicType::Spectrogram
    } else if range_eq(v, c, d, "waveform") || range_eq(v, c, d, "Waveform") {
        GraphicType::Waveform
    } else {
        GraphicType::Timeline
    }
}

/// The colours of the `color_scheme` value `v[c..d]`.
fn colors_of(v: &Vec<char>, c: usize, d: usize) -> (colors: Vec<Color>)
    requires
        c <= d <= v.len(),
    ensures
        colors@ == scheme_colors(v@.subrange(c as int, d as int)),
{
    let sep = chars_of(", ");
    let ghost sep_v = sep@;
    proof {
        reveal_strlit(", ");
    }
    let (start, end) = trim_range(v, c, d, CharClass::SquareBracket);
    let ghost whole = v@.subrange(start as int, end as int);
    let ghost f = |piece: Seq<char>| hex_color_or(piece, Color { r: 0x40, g: 0xe0, b: 0xd0, a: 255 });
    let mut colors: Vec<Color> = Vec::new();
    let ghost mut pieces: Seq<Seq<char>> = seq![];
    let mut pos = start;
    loop
        invariant_except_break
            split(whole, sep@) == pieces + split(v@.subrange(pos as int, end as int), sep@),
            colors@ == pieces.map_values(f),
        invariant
            start <= pos <= end <= v.len(),
            sep@ == ", "@,
            sep@.len() == 2,
            whole == v@.subrange(start as int, end as int),
            f == (|piece: Seq<char>| hex_color_or(piece, Color { r: 0x40, g: 0xe0, b: 0xd0, a: 255 })),
        ensures
            colors@ == split(whole, sep@).map_values(f),
        decreases end - pos,
    {
        let ghost rest = v@.subrange(pos as int, end as int);
        match find_in_range(v, pos, end, &sep) {
            Some(k) => {
                proof {
                    crate::text::lemma_find_from_bounds(rest, sep@, 0);
                    assert(rest.take(k as int) =~= v@.subrange(pos as int, pos + k));
                    assert(rest.skip(k + 2) =~= v@.subrange(pos + k + 2, end as int));
                }
                let color = match hex_color_range(v, pos, pos + k) {
                    Some(color) => color,
                    None => Color::turquoise(),
                };
                colors.push(color);
                proof {
                    pieces = pieces.push(v@.subrange(pos as int, pos + k));
                    assert(colors@ =~= pieces.map_values(f));
                }
                pos = pos + k + 2;
            },
            None => {
                let color = match hex_color_range(v, pos, end) {
                    Some(color) => color,
                    None => Color::turquoise(),
                };
                colors.push(color);
                proof {
                    pieces = pieces.push(rest);
                    assert(colors@ =~= pieces.map_values(f));
                    assert(split(whole, sep@) =~= pieces);
                }
                break;
            },
        }
    }
    assert(colors@ =~= scheme_colors(v@.subrange(c as int, d as int)));
    colors
}

impl GraphicConfig {
    /// The settings a graphic element starts with.
    pub fn default() -> (g: GraphicConfig)
        ensures
            g@ == default_graphic(),
    {
        let mut colors: Vec<Color> = Vec::new();
        colors.push(Color { r: 204, g: 47, b: 0, a: 255 });
        colors.push(Color { r: 70, g: 90, b: 178, a: 255 });
        colors.push(Color { r: 0, g: 118, b: 104, a: 255 });
        let g = GraphicConfig {
            graphics_type: GraphicType::Timeline,
            background_color: Color { r: 17, g: 17, b: 26, a: 255 },
            position: GraphicPosition::Full,
            shape: GraphicShape::Line,
            style: GraphicStyle::Graph,
            color_scheme: ColorScheme {
                colors,
                orientation: Orientation::Horizintal,
                blend: true,
                glow: false,
            },
        };
        assert(g@.color_scheme.colors =~= default_colors());
        g
    }

    /// Applies one `parameter = value` line of a `[graphic]` section. The
    /// parameter is trimmed and compared in lower case, the value is
    /// trimmed. A parameter the section does not know changes nothing and is
    /// handed back.
    pub fn modify_parameter(&mut self, parameter: &str, value: &str) -> (u: Option<UnknownSetting>)
        ensures
            final(self)@ == set_graphic(old(self)@, setting_key(parameter@), setting_value(value@)),
            u is Some <==> !graphic_key_known(setting_key(parameter@)),
            u matches Some(x) ==> x@ == (setting_key(parameter@), setting_value(value@)),
            is_ascii_text(trim(parameter@)) ==> setting_key(parameter@) == trim(parameter@).map_values(
                |c: char| ascii_lower(c),
            ),
    {
        let (key, kc) = read_key(parameter);
        let (vc, c, d) = read_value(value);
        if chars_eq(&kc, "background_color") {
            self.background_color = if range_eq(&vc, c, d, "none") {
                Color::transparent()
            } else {
                match hex_color_range(&vc, c, d) {
                    Some(color) => color,
                    None => Color::white(),
                }
            };
        } else if chars_eq(&kc, "position") {
            self.position = position_of(&vc, c, d);
        } else if chars_eq(&kc, "shape") {
            self.shape = shape_of(&vc, c, d);
        } else if chars_eq(&kc, "style") {
            self.style = style_of(&vc, c, d);
        } else if chars_eq(&kc, "type") {
            self.graphics_type = type_of(&vc, c, d);
        } else if chars_eq(&kc, "color_scheme") {
            self.color_scheme.colors = colors_of(&vc, c, d);
        } else if chars_eq(&kc, "color_blend") {
            self.color_scheme.blend = range_eq(&vc, c, d, "true");
        } else if chars_eq(&kc, "color_glow") {
            self.color_scheme.glow = range_eq(&vc, c, d, "true");
        } else {
            return Some(unknown_setting(key, value, c, d));
        }
        None
    }
}

// ---------------------------------------------------------------------------
// The whole file
// ---------------------------------------------------------------------------

/// Where reading a file stands after some of its lines: the global
/// settings with the graphic elements already finished, the element whose
/// section is open, and the unknown settings met so far.
pub struct ParseState {
    pub config: ConfigModel,
    pub current: Option<GraphicConfigModel>,
    pub unknown: Seq<(Seq<char>, Seq<char>)>,
}

pub open spec fn initial_state() -> ParseState {
    ParseState { config: default_config(), current: None, unknown: seq![] }
}

/// A line that is read at all: longer than one byte in UTF-8, and not
/// starting with `#`.
pub open spec fn line_kept(l: Seq<char>) -> bool {
    &&& (l.len() >= 2 || (l.len() == 1 && (l[0] as u32) >= 0x80))
    &&& l[0] != '#'
}

/// Opens a new graphic element, finishing the open one.
pub open spec fn open_graphic(st: ParseState) -> ParseState {
    match st.current {
        Some(g) => ParseState {
            config: ConfigModel { graphics: st.config.graphics.push(g), ..st.config },
            current: Some(default_graphic()),
            ..st
        },
        None => ParseState { current: Some(default_graphic()), ..st },
    }
}

/// Applies `parameter = value` to the open graphic element, or to the
/// global settings when none is open.
pub open spec fn apply_setting(st: ParseState, parameter: Seq<char>, value: Seq<char>) -> ParseState {
    let key = setting_key(parameter);
    let v = setting_value(value);
    match st.current {
        Some(g) => ParseState {
            current: Some(set_graphic(g, key, v)),
            unknown: if graphic_key_known(key) {
                st.unknown
            } else {
                st.unknown.push((key, v))
            },
            ..st
        },
        None => ParseState {
            config: set_config(st.config, key, v),
            unknown: if config_key_known(key) {
                st.unknown
            } else {
                st.unknown.push((key, v))
            },
            ..st
        },
    }
}

/// A line that opens a graphic element: it contains the marker `[graphic]`,
/// or the same marker with a capital letter, `[Graphic]`.
pub open spec fn is_graphic_header(l: Seq<char>) -> bool {
    contains(l, "[graphic]"@) || contains(l, "[Graphic]"@)
}

/// One line: a kept line that contains a graphic marker opens a new element, and
/// a kept line that contains `" = "` is a setting, split at the first
/// `" = "`.
pub open spec fn read_line(st: ParseState, l: Seq<char>) -> ParseState {
    if !line_kept(l) {
        st
    } else {
        let opened = if is_graphic_header(l) {
            open_graphic(st)
        } else {
            st
        };
        match split_once(l, " = "@) {
            Some((parameter, value)) => apply_setting(opened, parameter, value),
            None => opened,
        }
    }
}

pub open spec fn read_lines(ls: Seq<Seq<char>>) -> ParseState
    decreases ls.len(),
{
    if ls.len() == 0 {
        initial_state()
    } else {
        read_line(read_lines(ls.drop_last()), ls.last())
    }
}

/// The settings at the end of the file: the open element, if any, is
/// finished.
pub open spec fn finish(st: ParseState) -> ConfigModel {
    match st.current {
        Some(g) => ConfigModel { graphics: st.config.graphics.push(g), ..st.config },
        None => st.config,
    }
}

/// The settings a configuration file gives.
pub open spec fn parsed_config(file: Seq<char>) -> ConfigModel {
    finish(read_lines(lines(file)))
}

/// The unknown settings of a configuration file, in file order.
pub open spec fn unknown_settings(file: Seq<char>) -> Seq<(Seq<char>, Seq<char>)> {
    read_lines(lines(file)).unknown
}

pub open spec fn current_view(g: Option<GraphicConfig>) -> Option<GraphicConfigModel> {
    match g {
        Some(g) => Some(g@),
        None => None,
    }
}

pub open spec fn state_of(
    config: Config,
    current: Option<GraphicConfig>,
    unknown: Seq<UnknownSetting>,
) -> ParseState {
    ParseState { config: config@, current: current_view(current), unknown: unknown_view(unknown) }
}

/// Reads a configuration file: its settings, and the settings it gives that
/// no section knows.
pub fn parse_config_file(file: String) -> (r: (Config, Vec<UnknownSetting>))
    ensures
        r.0@ == parsed_config(file@),
        unknown_view(r.1@) == unknown_settings(file@),
{
    let text = file.as_str();
    let cs = chars_of(text);
    let header = chars_of("[graphic]");
    let header_doc = chars_of("[Graphic]");
    let assign = chars_of(" = ");
    proof {
        reveal_strlit(" = ");
    }
    let mut config = Config::default();
    let mut current: Option<GraphicConfig> = None;
    let mut unknown: Vec<UnknownSetting> = Vec::new();
    let ghost mut done: Seq<Seq<char>> = seq![];
    let mut pos: usize = 0;
    proof {
        assert(unknown_view(unknown@) =~= seq![]);
        assert(lines(cs@) =~= done + lines_from(cs@, 0));
    }
    while pos < cs.len()
        invariant
            pos <= cs.len(),
            cs@ == file@,
            text@ == file@,
            header@ == "[graphic]"@,
            header_doc@ == "[Graphic]"@,
            assign@ == " = "@,
            assign@.len() == 3,
            lines(cs@) == done + lines_from(cs@, pos as int),
            state_of(config, current, unknown@) == read_lines(done),
        decreases cs.len() - pos,
    {
        let (a, b, next) = next_line(&cs, pos);
        let ghost l = cs@.subrange(a as int, b as int);
        let ghost before = read_lines(done);
        let kept = (b - a >= 2 || (b - a == 1 && cs[a] as u32 >= 0x80)) && cs[a] != '#';
        if kept {
            if find_in_range(&cs, a, b, &header).is_some() || find_in_range(&cs, a, b, &header_doc).is_some() {
                let ghost old_graphics = config.graphics@;
                match current.take() {
                    Some(g) => {
                        config.graphics.push(g);
                        proof {
                            assert(graphics_view(config.graphics@) =~= graphics_view(old_graphics).push(g@));
                        }
                    },
                    None => {},
                }
                current = Some(GraphicConfig::default());
            }
            let ghost opened = state_of(config, current, unknown@);
            assert(opened == (if is_graphic_header(l) { open_graphic(before) } else { before }));
            match find_in_range(&cs, a, b, &assign) {
                Some(k) => {
                    proof {
                        crate::text::lemma_find_from_bounds(l, assign@, 0);
                        assert(l.take(k as int) =~= cs@.subrange(a as int, a + k));
                        assert(l.skip(k + 3) =~= cs@.subrange(a + k + 3, b as int));
                    }
                    let parameter = text.substring_char(a, a + k);
                    let value = text.substring_char(a + k + 3, b);
                    let ghost old_unknown = unknown@;
                    let outcome = match current.take() {
                        Some(mut g) => {
                            let o = g.modify_parameter(parameter, value);
                            current = Some(g);
                            o
                        },
                        None => config.modify_parameter(parameter, value),
                    };
                    match outcome {
                        Some(u) => {
                            unknown.push(u);
                            proof {
                                assert(unknown_view(unknown@) =~= unknown_view(old_unknown).push(u@));
                            }
                        },
                        None => {},
                    }
                    assert(state_of(config, current, unknown@) == apply_setting(
                        opened,
                        parameter@,
                        value@,
                    ));
                },
                None => {},
            }
            assert(state_of(config, current, unknown@) == read_line(before, l));
        }
        assert(state_of(config, current, unknown@) == read_line(before, l));
        proof {
            assert(done.push(l).drop_last() =~= done);
            done = done.push(l);
            assert(lines(cs@) =~= done + lines_from(cs@, next as int));
        }
        pos = next;
    }
    proof {
        assert(lines_from(cs@, pos as int) =~= seq![]);
        assert(done =~= lines(cs@));
    }
    let ghost old_graphics = config.graphics@;
    match current {
        Some(g) => {
            config.graphics.push(g);
            proof {
                assert(graphics_view(config.graphics@) =~= graphics_view(old_graphics).push(g@));
            }
        },
        None => {},
    }
    (config, unknown)
}

// ---------------------------------------------------------------------------
// Laws
// ---------------------------------------------------------------------------

/// Setting a global parameter twice leaves only the second value: the first
/// setting leaves no trace.
pub proof fn lemma_config_last_setting_wins(
    c: ConfigModel,
    key: Seq<char>,
    first: Seq<char>,
    second: Seq<char>,
)
    ensures
        set_config(set_config(c, key, first), key, second) == set_config(c, key, second),
{
}

/// Setting a parameter of a graphic element twice leaves only the second
/// value.
pub proof fn lemma_graphic_last_setting_wins(
    g: GraphicConfigModel,
    key: Seq<char>,
    first: Seq<char>,
    second: Seq<char>,
)
    ensures
        set_graphic(set_graphic(g, key, first), key, second) == set_graphic(g, key, second),
{
}

/// The number of lines that open a graphic element.
pub open spec fn graphic_headers(ls: Seq<Seq<char>>) -> nat
    decreases ls.len(),
{
    if ls.len() == 0 {
        0
    } else {
        graphic_headers(ls.drop_last()) + if line_kept(ls.last()) && is_graphic_header(ls.last()) {
            1nat
        } else {
            0nat
        }
    }
}

proof fn lemma_read_lines_graphics(ls: Seq<Seq<char>>)
    ensures
        read_lines(ls).config.graphics.len() + (if read_lines(ls).current is Some {
            1nat
        } else {
            0nat
        }) == graphic_headers(ls),
        graphic_headers(ls) == 0 ==> read_lines(ls).current is None,
    decreases ls.len(),
{
    if ls.len() > 0 {
        lemma_read_lines_graphics(ls.drop_last());
    }
}

/// Every kept line that contains a graphic marker makes one graphic element, and
/// nothing else does.
pub proof fn lemma_one_graphic_per_header(file: Seq<char>)
    ensures
        parsed_config(file).graphics.len() == graphic_headers(lines(file)),
{
    lemma_read_lines_graphics(lines(file));
}

/// A line that is not read (a comment, an empty line, a line of one ASCII
/// character) can be added anywhere without changing anything.
pub proof fn lemma_ignored_line(before: Seq<Seq<char>>, line: Seq<char>, after: Seq<Seq<char>>)
    requires
        !line_kept(line),
    ensures
        read_lines(before + seq![line] + after) == read_lines(before + after),
    decreases after.len(),
{
    if after.len() == 0 {
        assert((before + seq![line] + after).drop_last() =~= before);
        assert(before + after =~= before);
    } else {
        lemma_ignored_line(before, line, after.drop_last());
        assert((before + seq![line] + after).drop_last() =~= before + seq![line] + after.drop_last());
        assert((before + after).drop_last() =~= before + after.drop_last());
    }
}

/// The pieces joined by `", "`.
pub open spec fn join_pieces(ps: Seq<Seq<char>>) -> Seq<char>
    decreases ps.len(),
{
    if ps.len() == 0 {
        seq![]
    } else if ps.len() == 1 {
        ps[0]
    } else {
        ps[0] + seq![',', ' '] + join_pieces(ps.drop_first())
    }
}

/// The `color_scheme` value that lists `colors` as `[RRGGBB, RRGGBB, ...]`.
pub open spec fn scheme_text(colors: Seq<Color>) -> Seq<char> {
    seq!['['] + join_pieces(colors.map_values(|c: Color| hex_rgb(c.r, c.g, c.b))) + seq![']']
}

proof fn lemma_hex_rgb_chars(r: u8, g: u8, b: u8)
    ensures
        hex_rgb(r, g, b).len() == 6,
        forall|i: int|
            0 <= i < 6 ==> {
                let c = #[trigger] hex_rgb(r, g, b)[i];
                c != ',' && c != '[' && c != ']'
            },
{
}

proof fn lemma_find_skips(s: Seq<char>, p: Seq<char>, i: int, j: int)
    requires
        0 <= i <= j,
        j + p.len() <= s.len(),
        p.len() > 0,
        forall|k: int| i <= k < j ==> !matches_at(s, p, k),
    ensures
        find_from(s, p, i) == find_from(s, p, j),
    decreases j - i,
{
    if i < j {
        lemma_find_skips(s, p, i + 1, j);
    }
}

proof fn lemma_no_comma_no_match(s: Seq<char>, i: int)
    requires
        0 <= i < s.len(),
        s[i] != ',',
    ensures
        !matches_at(s, ", "@, i),
{
    reveal_strlit(", ");
    if matches_at(s, ", "@, i) {
        assert(s.subrange(i, i + 2)[0] == ", "@[0]);
    }
}

proof fn lemma_find_none_without_comma(s: Seq<char>, i: int)
    requires
        0 <= i <= s.len(),
        forall|k: int| 0 <= k < s.len() ==> s[k] != ',',
    ensures
        find_from(s, ", "@, i) is None,
    decreases s.len() - i,
{
    reveal_strlit(", ");
    if i < s.len() {
        lemma_no_comma_no_match(s, i);
        lemma_find_none_without_comma(s, i + 1);
    }
}

/// Splitting joined six-digit pieces at `", "` gives the pieces back.
proof fn lemma_split_joined(ps: Seq<Seq<char>>)
    requires
        ps.len() >= 1,
        forall|i: int| 0 <= i < ps.len() ==> (#[trigger] ps[i]).len() == 6,
        forall|i: int, k: int| 0 <= i < ps.len() && 0 <= k < 6 ==> #[trigger] ps[i][k] != ',',
    ensures
        split(join_pieces(ps), ", "@) == ps,
    decreases ps.len(),
{
    reveal_strlit(", ");
    let sep = ", "@;
    let s = join_pieces(ps);
    if ps.len() == 1 {
        assert forall|k: int| 0 <= k < s.len() implies s[k] != ',' by {
            assert(ps[0][k] != ',');
        }
        lemma_find_none_without_comma(s, 0);
        assert(split(s, sep) =~= ps);
    } else {
        let rest = ps.drop_first();
        assert forall|i: int| 0 <= i < rest.len() implies (#[trigger] rest[i]).len() == 6 by {
            assert(rest[i] == ps[i + 1]);
        }
        assert forall|i: int, k: int| 0 <= i < rest.len() && 0 <= k < 6 implies #[trigger] rest[i][k]
            != ',' by {
            assert(rest[i] == ps[i + 1]);
            assert(ps[i + 1][k] != ',');
        }
        lemma_split_joined(rest);
        let tail = join_pieces(rest);
        assert(s == ps[0] + seq![',', ' '] + tail);
        assert forall|k: int| 0 <= k < 6 implies !matches_at(s, sep, k) by {
            assert(s[k] == ps[0][k]);
            assert(ps[0][k] != ',');
            lemma_no_comma_no_match(s, k);
        }
        assert(s.subrange(6, 8) =~= sep);
        lemma_find_skips(s, sep, 0, 6);
        assert(find(s, sep) == Some(6int));
        assert(s.take(6) =~= ps[0]);
        assert(s.skip(8) =~= tail);
        assert(split(s, sep) =~= seq![ps[0]] + rest);
    }
}

/// Listing opaque colours as `[RRGGBB, RRGGBB, ...]` and reading the list
/// back gives the same colours.
pub proof fn lemma_scheme_roundtrip(colors: Seq<Color>)
    requires
        colors.len() >= 1,
        forall|i: int| 0 <= i < colors.len() ==> (#[trigger] colors[i]).a == 255,
    ensures
        scheme_colors(scheme_text(colors)) == colors,
{
    let ps = colors.map_values(|c: Color| hex_rgb(c.r, c.g, c.b));
    assert forall|i: int| 0 <= i < ps.len() implies (#[trigger] ps[i]).len() == 6 by {
        lemma_hex_rgb_chars(colors[i].r, colors[i].g, colors[i].b);
    }
    assert forall|i: int, k: int| 0 <= i < ps.len() && 0 <= k < 6 implies #[trigger] ps[i][k]
        != ',' by {
        lemma_hex_rgb_chars(colors[i].r, colors[i].g, colors[i].b);
    }
    lemma_split_joined(ps);
    let body = join_pieces(ps);
    let text = scheme_text(colors);
    // The brackets come off and nothing else does: the body starts and ends
    // with hex digits.
    lemma_join_ends(ps);
    assert(text.drop_first() =~= body + seq![']']);
    assert(trim_start(text, CharClass::SquareBracket) == trim_start(body + seq![']'], CharClass::SquareBracket));
    assert(trim_start(body + seq![']'], CharClass::SquareBracket) == body + seq![']']);
    assert((body + seq![']']).drop_last() =~= body);
    assert((body + seq![']']).last() == ']');
    assert(trim_end(body + seq![']'], CharClass::SquareBracket) == trim_end(body, CharClass::SquareBracket));
    assert(trim_end(body, CharClass::SquareBracket) == body);
    assert(trim_class(text, CharClass::SquareBracket) == body);
    assert forall|i: int| 0 <= i < colors.len() implies hex_color_or(
        #[trigger] ps[i],
        Color { r: 0x40, g: 0xe0, b: 0xd0, a: 255 },
    ) == colors[i] by {
        lemma_hex_rgb_roundtrip(colors[i].r, colors[i].g, colors[i].b);
    }
    assert(scheme_colors(text) =~= colors);
}

proof fn lemma_join_ends(ps: Seq<Seq<char>>)
    requires
        ps.len() >= 1,
        forall|i: int| 0 <= i < ps.len() ==> (#[trigger] ps[i]).len() == 6,
        forall|i: int, k: int| 0 <= i < ps.len() && 0 <= k < 6 ==> {
            let c = #[trigger] ps[i][k];
            c != '[' && c != ']'
        },
    ensures
        join_pieces(ps).len() >= 6,
        join_pieces(ps)[0] != '[' && join_pieces(ps)[0] != ']',
        join_pieces(ps).last() != '[' && join_pieces(ps).last() != ']',
    decreases ps.len(),
{
    if ps.len() > 1 {
        let rest = ps.drop_first();
        assert forall|i: int| 0 <= i < rest.len() implies (#[trigger] rest[i]).len() == 6 by {
            assert(rest[i] == ps[i + 1]);
        }
        assert forall|i: int, k: int| 0 <= i < rest.len() && 0 <= k < 6 implies {
            let c = #[trigger] rest[i][k];
            c != '[' && c != ']'
        } by {
            assert(rest[i] == ps[i + 1]);
            assert(ps[i + 1][k] != '[' && ps[i + 1][k] != ']');
        }
        lemma_join_ends(rest);
        assert(ps[0][0] != '[' && ps[0][0] != ']');
    } else {
        assert(ps[0][0] != '[' && ps[0][0] != ']');
        assert(ps[0][5] != '[' && ps[0][5] != ']');
    }
}

/// A line that is not read (a comment, an empty line, a line of one ASCII
/// character) can be inserted at the start of any line of a file, ended by
/// `"\n"` or `"\r\n"`, without changing the settings it gives or the unknown
/// settings it reports.
pub proof fn lemma_ignored_line_in_file(before: Seq<char>, line: Seq<char>, after: Seq<char>)
    requires
        before.len() == 0 || before.last() == '\n',
        forall|k: int| 0 <= k < line.len() ==> line[k] != '\n',
        !line_kept(terminated_line(line)),
    ensures
        parsed_config(before + line + seq!['\n'] + after) == parsed_config(before + after),
        unknown_settings(before + line + seq!['\n'] + after) == unknown_settings(before + after),
{
    let inserted = line + seq!['\n'];
    let l = terminated_line(line);
    assert(before + line + seq!['\n'] + after =~= before + (inserted + after));
    lemma_lines_append(before, inserted + after);
    lemma_lines_append(inserted, after);
    lemma_lines_single(line);
    lemma_lines_append(before, after);
    lemma_ignored_line(lines(before), l, lines(after));
    assert(lines(before) + lines(inserted + after) =~= lines(before) + seq![l] + lines(after));
}

proof fn lemma_comment_start_cr(v: Seq<char>, i: int)
    requires
        0 <= i <= v.len(),
    ensures
        comment_start(v + seq!['\r'], i) == (if comment_start(v, i) < v.len() {
            comment_start(v, i)
        } else {
            v.len() + 1int
        }),
        i <= comment_start(v, i) <= v.len(),
    decreases v.len() - i,
{
    let t = v + seq!['\r'];
    if i < v.len() {
        assert(t[i] == v[i]);
        if i > 0 {
            assert(t[i - 1] == v[i - 1]);
        }
        lemma_comment_start_cr(v, i + 1);
    } else {
        assert(t[i] == '\r');
        assert(comment_start(t, i + 1) == t.len());
    }
}

/// A `'\r'` at the end of a value changes nothing of the setting.
proof fn lemma_setting_value_cr(v: Seq<char>)
    ensures
        setting_value(v + seq!['\r']) == setting_value(v),
{
    lemma_comment_start_cr(v, 0);
    let t = v + seq!['\r'];
    let c = comment_start(v, 0);
    if c < v.len() {
        assert(t.take(c) =~= v.take(c));
    } else {
        assert(t.take(v.len() + 1int) =~= v.take(c) + seq!['\r']);
        lemma_trim_push_whitespace(v.take(c), '\r');
    }
}

/// A line read with a `'\r'` at its end has the same effect as without it.
proof fn lemma_read_line_cr(st: ParseState, l: Seq<char>)
    requires
        l.len() > 0,
        l.last() == '\r',
    ensures
        read_line(st, l) == read_line(st, l.drop_last()),
{
    reveal_strlit("[graphic]");
    reveal_strlit("[Graphic]");
    reveal_strlit(" = ");
    let m = l.drop_last();
    assert(l =~= m + seq!['\r']);
    lemma_find_before_cr(m, "[graphic]"@, 0);
    lemma_find_before_cr(m, "[Graphic]"@, 0);
    lemma_find_before_cr(m, " = "@, 0);
    crate::text::lemma_find_from_bounds(m, " = "@, 0);
    if line_kept(l) && !line_kept(m) {
        // Only a line of one ASCII character gains a second one; it is too
        // short to hold a marker or a setting.
        assert(m.len() == 1);
        assert(!contains(l, "[graphic]"@) && !contains(l, "[Graphic]"@));
        assert(split_once(l, " = "@) is None);
    } else if line_kept(l) {
        match find(m, " = "@) {
            Some(k) => {
                assert(l.take(k) =~= m.take(k));
                assert(l.skip(k + 3) =~= m.skip(k + 3) + seq!['\r']);
                lemma_setting_value_cr(m.skip(k + 3));
            },
            None => {},
        }
    } else {
        assert(l[0] == m[0] || m.len() == 0);
    }
}

/// A line that is not read can be added after the last line of a file that
/// has no final line break, with or without a line break of its own,
/// without changing the settings or the unknown settings. The file is
/// written as the text up to its last line (`front`, empty or ending in a
/// line break) and that last line.
pub proof fn lemma_ignored_line_after_last(front: Seq<char>, last: Seq<char>, line: Seq<char>)
    requires
        front.len() == 0 || front.last() == '\n',
        last.len() > 0,
        forall|k: int| 0 <= k < last.len() ==> last[k] != '\n',
        forall|k: int| 0 <= k < line.len() ==> line[k] != '\n',
    ensures
        !line_kept(line) ==> parsed_config(front + last + seq!['\n'] + line) == parsed_config(
            front + last,
        ) && unknown_settings(front + last + seq!['\n'] + line) == unknown_settings(front + last),
        !line_kept(terminated_line(line)) ==> parsed_config(
            front + last + seq!['\n'] + line + seq!['\n'],
        ) == parsed_config(front + last) && unknown_settings(
            front + last + seq!['\n'] + line + seq!['\n'],
        ) == unknown_settings(front + last),
{
    let lf = lines(front);
    let closed = last + seq!['\n'];
    let tl = terminated_line(last);
    // The file as it is: the lines of `front`, then `last`.
    lemma_lines_append(front, last);
    lemma_lines_unterminated(last);
    assert(lines(front + last) == lf + seq![last]);
    assert((lf + seq![last]).drop_last() =~= lf);
    assert(read_lines(lf + seq![last]) == read_line(read_lines(lf), last));
    // Ending `last` with a line break only drops a final '\r' from it.
    lemma_lines_single(last);
    if last.last() == '\r' {
        lemma_read_line_cr(read_lines(lf), last);
    }
    assert((lf + seq![tl]).drop_last() =~= lf);
    assert(read_lines(lf + seq![tl]) == read_lines(lf + seq![last]));
    // Without a line break after the new line.
    lemma_lines_append(front, closed + line);
    lemma_lines_append(closed, line);
    lemma_lines_unterminated(line);
    assert(front + last + seq!['\n'] + line =~= front + (closed + line));
    if !line_kept(line) {
        if line.len() > 0 {
            lemma_ignored_line(lf + seq![tl], line, seq![]);
            assert(lines(front + (closed + line)) =~= (lf + seq![tl]) + seq![line] + seq![]);
            assert((lf + seq![tl]) + seq![] =~= lf + seq![tl]);
        } else {
            assert(lines(front + (closed + line)) =~= lf + seq![tl]);
        }
    }
    // With one.
    let inserted = line + seq!['\n'];
    lemma_lines_append(front, closed + inserted);
    lemma_lines_append(closed, inserted);
    lemma_lines_single(line);
    assert(front + last + seq!['\n'] + line + seq!['\n'] =~= front + (closed + inserted));
    if !line_kept(terminated_line(line)) {
        lemma_ignored_line(lf + seq![tl], terminated_line(line), seq![]);
        assert(lines(front + (closed + inserted)) =~= (lf + seq![tl]) + seq![terminated_line(line)]
            + seq![]);
        assert((lf + seq![tl]) + seq![] =~= lf + seq![tl]);
    }
}

// ---------------------------------------------------------------------------
// What each setting touches
// ---------------------------------------------------------------------------

/// A global setting changes only the field it names, and never the graphic
/// elements.
pub proof fn lemma_config_setting_touches_only_its_field(c: ConfigModel, key: Seq<char>, value: Seq<char>)
    ensures
        ({
            let r = set_config(c, key, value);
            &&& key != "sample_count"@ ==> r.sample_count == c.sample_count
            &&& key != "sample_interpolation_scalar"@ ==> r.sample_interpolation_scalar
                == c.sample_interpolation_scalar
            &&& key != "background_color"@ ==> r.background_color == c.background_color
            &&& key != "background_image"@ ==> r.background_image == c.background_image
            &&& key != "timeline_length"@ ==> r.timeline_length == c.timeline_length
            &&& key != "line_width"@ ==> r.line_width == c.line_width
            &&& key != "gain"@ ==> r.gain == c.gain
            &&& r.graphics == c.graphics
            &&& !config_key_known(key) ==> r == c
        }),
{
}

/// A setting of a graphic element changes only the field it names.
pub proof fn lemma_graphic_setting_touches_only_its_field(
    g: GraphicConfigModel,
    key: Seq<char>,
    value: Seq<char>,
)
    ensures
        ({
            let r = set_graphic(g, key, value);
            &&& key != "background_color"@ ==> r.background_color == g.background_color
            &&& key != "position"@ ==> r.position == g.position
            &&& key != "shape"@ ==> r.shape == g.shape
            &&& key != "style"@ ==> r.style == g.style
            &&& key != "type"@ ==> r.graphics_type == g.graphics_type
            &&& key != "color_scheme"@ ==> r.color_scheme.colors == g.color_scheme.colors
            &&& key != "color_blend"@ ==> r.color_scheme.blend == g.color_scheme.blend
            &&& key != "color_glow"@ ==> r.color_scheme.glow == g.color_scheme.glow
            &&& r.color_scheme.orientation == g.color_scheme.orientation
            &&& !graphic_key_known(key) ==> r == g
        }),
{
}

/// The value that names each position.
pub open spec fn position_name(p: GraphicPosition) -> Seq<char> {
    match p {
        GraphicPosition::Full => "full"@,
        GraphicPosition::Top => "top"@,
        GraphicPosition::Bottom => "bottom"@,
        GraphicPosition::Left => "left"@,
        GraphicPosition::Right => "right"@,
        GraphicPosition::TopLeft => "topleft"@,
        GraphicPosition::TopRight => "topright"@,
        GraphicPosition::BottomLeft => "bottomleft"@,
        GraphicPosition::BottomRight => "bottomright"@,
    }
}

/// The value that names each shape.
pub open spec fn shape_name(s: GraphicShape) -> Seq<char> {
    match s {
        GraphicShape::Line => "line"@,
        GraphicShape::Circle => "circle"@,
    }
}

/// The value that names each style.
pub open spec fn style_name(s: GraphicStyle) -> Seq<char> {
    match s {
        GraphicStyle::Lines => "lines"@,
        GraphicStyle::Graph => "graph"@,
        GraphicStyle::Dots => "dots"@,
        GraphicStyle::DotsSingle => "dots_single"@,
    }
}

/// The lower-case value that names each element type.
pub open spec fn graphic_type_name(t: GraphicType) -> Seq<char> {
    match t {
        GraphicType::Spectrogram => "spectrogram"@,
        GraphicType::Waveform => "waveform"@,
        GraphicType::Timeline => "timeline"@,
    }
}

/// The capitalised value that names each element type.
pub open spec fn type_title(t: GraphicType) -> Seq<char> {
    match t {
        GraphicType::Spectrogram => "Spectrogram"@,
        GraphicType::Waveform => "Waveform"@,
        GraphicType::Timeline => "Timeline"@,
    }
}

/// Every position, shape, style and element type is chosen by the value
/// that names it, whatever the element was before; `true` and `false` set
/// blending and glow, and `none` makes the background transparent.
pub proof fn lemma_values_name_their_choice(
    g: GraphicConfigModel,
    p: GraphicPosition,
    shape: GraphicShape,
    style: GraphicStyle,
    t: GraphicType,
)
    ensures
        set_graphic(g, "position"@, position_name(p)).position == p,
        set_graphic(g, "shape"@, shape_name(shape)).shape == shape,
        set_graphic(g, "style"@, style_name(style)).style == style,
        set_graphic(g, "type"@, graphic_type_name(t)).graphics_type == t,
        set_graphic(g, "type"@, type_title(t)).graphics_type == t,
        set_graphic(g, "color_blend"@, "true"@).color_scheme.blend,
        !set_graphic(g, "color_blend"@, "false"@).color_scheme.blend,
        set_graphic(g, "color_glow"@, "true"@).color_scheme.glow,
        !set_graphic(g, "color_glow"@, "false"@).color_scheme.glow,
        set_graphic(g, "background_color"@, "none"@).background_color == (Color {
            r: 0,
            g: 0,
            b: 0,
            a: 0,
        }),
{
    reveal_strlit("background_color");
    reveal_strlit("position");
    reveal_strlit("shape");
    reveal_strlit("style");
    reveal_strlit("type");
    reveal_strlit("color_scheme");
    reveal_strlit("color_blend");
    reveal_strlit("color_glow");
    reveal_strlit("full");
    reveal_strlit("top");
    reveal_strlit("bottom");
    reveal_strlit("left");
    reveal_strlit("right");
    reveal_strlit("topleft");
    reveal_strlit("topright");
    reveal_strlit("bottomleft");
    reveal_strlit("bottomright");
    reveal_strlit("line");
    reveal_strlit("circle");
    reveal_strlit("lines");
    reveal_strlit("graph");
    reveal_strlit("dots");
    reveal_strlit("dots_single");
    reveal_strlit("timeline");
    reveal_strlit("Timeline");
    reveal_strlit("spectrogram");
    reveal_strlit("Spectrogram");
    reveal_strlit("waveform");
    reveal_strlit("Waveform");
    reveal_strlit("true");
    reveal_strlit("false");
    reveal_strlit("none");
    assert("position"@.len() != "background_color"@.len());
    assert("shape"@.len() != "background_color"@.len());
    assert("shape"@.len() != "position"@.len());
    assert("style"@.len() != "background_color"@.len());
    assert("style"@.len() != "position"@.len());
    assert("style"@[1] != "shape"@[1]);
    assert("type"@.len() != "background_color"@.len());
    assert("type"@.len() != "position"@.len());
    assert("type"@.len() != "shape"@.len());
    assert("type"@.len() != "style"@.len());
    assert("color_scheme"@.len() != "background_color"@.len());
    assert("color_scheme"@.len() != "position"@.len());
    assert("color_scheme"@.len() != "shape"@.len());
    assert("color_scheme"@.len() != "style"@.len());
    assert("color_scheme"@.len() != "type"@.len());
    assert("color_blend"@.len() != "background_color"@.len());
    assert("color_blend"@.len() != "position"@.len());
    assert("color_blend"@.len() != "shape"@.len());
    assert("color_blend"@.len() != "style"@.len());
    assert("color_blend"@.len() != "type"@.len());
    assert("color_blend"@.len() != "color_scheme"@.len());
    assert("color_glow"@.len() != "background_color"@.len());
    assert("color_glow"@.len() != "position"@.len());
    assert("color_glow"@.len() != "shape"@.len());
    assert("color_glow"@.len() != "style"@.len());
    assert("color_glow"@.len() != "type"@.len());
    assert("color_glow"@.len() != "color_scheme"@.len());
    assert("color_glow"@.len() != "color_blend"@.len());
    assert("top"@.len() != "full"@.len());
    assert("bottom"@.len() != "full"@.len());
    assert("bottom"@.len() != "top"@.len());
    assert("left"@[0] != "full"@[0]);
    assert("left"@.len() != "top"@.len());
    assert("left"@.len() != "bottom"@.len());
    assert("right"@.len() != "full"@.len());
    assert("right"@.len() != "top"@.len());
    assert("right"@.len() != "bottom"@.len());
    assert("right"@.len() != "left"@.len());
    assert("topleft"@.len() != "full"@.len());
    assert("topleft"@.len() != "top"@.len());
    assert("topleft"@.len() != "bottom"@.len());
    assert("topleft"@.len() != "left"@.len());
    assert("topleft"@.len() != "right"@.len());
    assert("topright"@.len() != "full"@.len());
    assert("topright"@.len() != "top"@.len());
    assert("topright"@.len() != "bottom"@.len());
    assert("topright"@.len() != "left"@.len());
    assert("topright"@.len() != "right"@.len());
    assert("topright"@.len() != "topleft"@.len());
    assert("bottomleft"@.len() != "full"@.len());
    assert("bottomleft"@.len() != "top"@.len());
    assert("bottomleft"@.len() != "bottom"@.len());
    assert("bottomleft"@.len() != "left"@.len());
    assert("bottomleft"@.len() != "right"@.len());
    assert("bottomleft"@.len() != "topleft"@.len());
    assert("bottomleft"@.len() != "topright"@.len());
    assert("bottomright"@.len() != "full"@.len());
    assert("bottomright"@.len() != "top"@.len());
    assert("bottomright"@.len() != "bottom"@.len());
    assert("bottomright"@.len() != "left"@.len());
    assert("bottomright"@.len() != "right"@.len());
    assert("bottomright"@.len() != "topleft"@.len());
    assert("bottomright"@.len() != "topright"@.len());
    assert("bottomright"@.len() != "bottomleft"@.len());
    assert("circle"@.len() != "line"@.len());
    assert("graph"@[0] != "lines"@[0]);
    assert("dots"@.len() != "lines"@.len());
    assert("dots"@.len() != "graph"@.len());
    assert("dots_single"@.len() != "lines"@.len());
    assert("dots_single"@.len() != "graph"@.len());
    assert("dots_single"@.len() != "dots"@.len());
    assert("Timeline"@[0] != "timeline"@[0]);
    assert("spectrogram"@.len() != "timeline"@.len());
    assert("spectrogram"@.len() != "Timeline"@.len());
    assert("Spectrogram"@.len() != "timeline"@.len());
    assert("Spectrogram"@.len() != "Timeline"@.len());
    assert("Spectrogram"@[0] != "spectrogram"@[0]);
    assert("waveform"@[0] != "timeline"@[0]);
    assert("waveform"@[0] != "Timeline"@[0]);
    assert("waveform"@.len() != "spectrogram"@.len());
    assert("waveform"@.len() != "Spectrogram"@.len());
    assert("Waveform"@[0] != "timeline"@[0]);
    assert("Waveform"@[0] != "Timeline"@[0]);
    assert("Waveform"@.len() != "spectrogram"@.len());
    assert("Waveform"@.len() != "Spectrogram"@.len());
    assert("Waveform"@[0] != "waveform"@[0]);
    assert("true"@.len() != "false"@.len());
}

// ---------------------------------------------------------------------------
// Sections
// ---------------------------------------------------------------------------

/// A line that is not a marker changes the open element (if any) in a way
/// that depends on that element alone.
proof fn lemma_current_follows_current(st1: ParseState, st2: ParseState, l: Seq<char>)
    requires
        st1.current == st2.current,
        !is_graphic_header(l),
    ensures
        read_line(st1, l).current == read_line(st2, l).current,
{
}

/// A kept line with a graphic marker (and no setting) finishes whatever
/// element is open, appending it unchanged, and opens an element with the
/// default settings, whatever came before.
pub proof fn lemma_header_opens_fresh_graphic(st: ParseState, l: Seq<char>)
    requires
        line_kept(l),
        is_graphic_header(l),
        !contains(l, " = "@),
    ensures
        read_line(st, l).current == Some(default_graphic()),
        read_line(st, l).config.graphics == (match st.current {
            Some(g) => st.config.graphics.push(g),
            None => st.config.graphics,
        }),
        read_line(st, l).config.sample_count == st.config.sample_count,
        read_line(st, l).unknown == st.unknown,
{
}

/// An element's settings come from its own section only: the element open
/// after a marker line and the lines of its section is the same whatever
/// lines stood before the marker.
pub proof fn lemma_section_independent(
    before1: Seq<Seq<char>>,
    before2: Seq<Seq<char>>,
    header: Seq<char>,
    section: Seq<Seq<char>>,
)
    requires
        line_kept(header),
        is_graphic_header(header),
        !contains(header, " = "@),
        forall|i: int| 0 <= i < section.len() ==> !is_graphic_header(#[trigger] section[i]),
    ensures
        read_lines(before1 + seq![header] + section).current == read_lines(
            before2 + seq![header] + section,
        ).current,
        read_lines(before1 + seq![header] + section).current is Some,
    decreases section.len(),
{
    if section.len() == 0 {
        assert(before1 + seq![header] + section =~= before1 + seq![header]);
        assert(before2 + seq![header] + section =~= before2 + seq![header]);
        assert((before1 + seq![header]).drop_last() =~= before1);
        assert((before2 + seq![header]).drop_last() =~= before2);
        lemma_header_opens_fresh_graphic(read_lines(before1), header);
        lemma_header_opens_fresh_graphic(read_lines(before2), header);
    } else {
        let rest = section.drop_last();
        assert forall|i: int| 0 <= i < rest.len() implies !is_graphic_header(#[trigger] rest[i]) by {
            assert(rest[i] == section[i]);
        }
        lemma_section_independent(before1, before2, header, rest);
        let l = section.last();
        assert((before1 + seq![header] + section).drop_last() =~= before1 + seq![header] + rest);
        assert((before2 + seq![header] + section).drop_last() =~= before2 + seq![header] + rest);
        lemma_current_follows_current(
            read_lines(before1 + seq![header] + rest),
            read_lines(before2 + seq![header] + rest),
            l,
        );
    }
}

proof fn lemma_comment_start_after(v: Seq<char>, c: Seq<char>, i: int)
    requires
        forall|k: int| 0 <= k < v.len() ==> v[k] != '#',
        0 <= i <= v.len() + 1,
    ensures
        comment_start(v + seq![' ', '#'] + c, i) == v.len() + 1,
    decreases v.len() + 1 - i,
{
    let t = v + seq![' ', '#'] + c;
    if i <= v.len() {
        if i < v.len() {
            assert(t[i] == v[i]);
        } else {
            assert(t[i] == ' ');
        }
        lemma_comment_start_after(v, c, i + 1);
    } else {
        assert(t[i] == '#');
        assert(t[i - 1] == ' ');
    }
}

/// A value is read up to a `#` that follows white space: what comes after
/// ` #` does not matter, and a value without `#` is only trimmed.
pub proof fn lemma_trailing_comment(v: Seq<char>, c: Seq<char>)
    requires
        forall|k: int| 0 <= k < v.len() ==> v[k] != '#',
    ensures
        setting_value(v + seq![' ', '#'] + c) == trim(v),
        setting_value(v) == trim(v),
{
    lemma_comment_start_after(v, c, 0);
    let t = v + seq![' ', '#'] + c;
    assert(t.take(v.len() + 1int) =~= v + seq![' ']);
    lemma_trim_push_whitespace(v, ' ');
    assert(comment_start(v, 0) == v.len()) by {
        lemma_comment_start_none(v, 0);
    }
    assert(v.take(v.len() as int) =~= v);
}

proof fn lemma_comment_start_none(v: Seq<char>, i: int)
    requires
        forall|k: int| 0 <= k < v.len() ==> v[k] != '#',
        0 <= i <= v.len(),
    ensures
        comment_start(v, i) == v.len(),
    decreases v.len() - i,
{
    if i < v.len() {
        lemma_comment_start_none(v, i + 1);
    }
}

/// Each global setting stores the value it is given: counts written in
/// decimal are read as those counts, a colour written as `RRGGBB` is that
/// opaque colour, and the text settings keep their text.
pub proof fn lemma_config_values_stored(c: ConfigModel, n: usize, r: u8, g: u8, b: u8, v: Seq<char>)
    ensures
        set_config(c, "sample_count"@, decimal(n as nat)).sample_count == n,
        set_config(c, "timeline_length"@, decimal(n as nat)).timeline_length == n,
        set_config(c, "background_color"@, hex_rgb(r, g, b)).background_color == (Color {
            r,
            g,
            b,
            a: 255,
        }),
        set_config(c, "background_image"@, v).background_image == Some(v),
        set_config(c, "sample_interpolation_scalar"@, v).sample_interpolation_scalar == Some(v),
        set_config(c, "line_width"@, v).line_width == Some(v),
        set_config(c, "gain"@, v).gain == Some(v),
{
    reveal_strlit("sample_count");
    reveal_strlit("sample_interpolation_scalar");
    reveal_strlit("background_color");
    reveal_strlit("background_image");
    reveal_strlit("timeline_length");
    reveal_strlit("line_width");
    reveal_strlit("gain");
    assert("sample_interpolation_scalar"@.len() != "sample_count"@.len());
    assert("background_color"@.len() != "sample_count"@.len());
    assert("background_color"@.len() != "sample_interpolation_scalar"@.len());
    assert("background_image"@.len() != "sample_count"@.len());
    assert("background_image"@.len() != "sample_interpolation_scalar"@.len());
    assert("background_image"@[11] != "background_color"@[11]);
    assert("timeline_length"@.len() != "sample_count"@.len());
    assert("timeline_length"@.len() != "sample_interpolation_scalar"@.len());
    assert("timeline_length"@.len() != "background_color"@.len());
    assert("timeline_length"@.len() != "background_image"@.len());
    assert("line_width"@.len() != "sample_count"@.len());
    assert("line_width"@.len() != "sample_interpolation_scalar"@.len());
    assert("line_width"@.len() != "background_color"@.len());
    assert("line_width"@.len() != "background_image"@.len());
    assert("line_width"@.len() != "timeline_length"@.len());
    assert("gain"@.len() != "sample_count"@.len());
    assert("gain"@.len() != "sample_interpolation_scalar"@.len());
    assert("gain"@.len() != "background_color"@.len());
    assert("gain"@.len() != "background_image"@.len());
    assert("gain"@.len() != "timeline_length"@.len());
    assert("gain"@.len() != "line_width"@.len());
    lemma_parse_usize_decimal(n);
    lemma_hex_rgb_roundtrip(r, g, b);
}

/// A colour written as `RRGGBB` becomes the background of a graphic element,
/// and a list of such colours its colour scheme.
pub proof fn lemma_graphic_colors_stored(gc: GraphicConfigModel, r: u8, g: u8, b: u8, colors: Seq<Color>)
    requires
        colors.len() >= 1,
        forall|i: int| 0 <= i < colors.len() ==> (#[trigger] colors[i]).a == 255,
    ensures
        set_graphic(gc, "background_color"@, hex_rgb(r, g, b)).background_color == (Color {
            r,
            g,
            b,
            a: 255,
        }),
        set_graphic(gc, "color_scheme"@, scheme_text(colors)).color_scheme.colors == colors,
{
    reveal_strlit("background_color");
    reveal_strlit("position");
    reveal_strlit("shape");
    reveal_strlit("style");
    reveal_strlit("type");
    reveal_strlit("color_scheme");
    reveal_strlit("none");
    assert("color_scheme"@.len() != "background_color"@.len());
    assert("color_scheme"@.len() != "position"@.len());
    assert("color_scheme"@.len() != "shape"@.len());
    assert("color_scheme"@.len() != "style"@.len());
    assert("color_scheme"@.len() != "type"@.len());
    assert(hex_rgb(r, g, b).len() != "none"@.len());
    lemma_hex_rgb_roundtrip(r, g, b);
    lemma_scheme_roundtrip(colors);
}

/// A line `parameter = value` (the parameter holding no `=` and not starting
/// with `#`, and the line no graphic marker) applies its setting to the open
/// element, or to the global settings when no element is open; an unknown
/// parameter is recorded with its value.
pub proof fn lemma_setting_line_applies(st: ParseState, parameter: Seq<char>, value: Seq<char>)
    requires
        parameter.len() >= 1,
        parameter[0] != '#',
        forall|k: int| 0 <= k < parameter.len() ==> parameter[k] != '=',
        !is_graphic_header(parameter + " = "@ + value),
    ensures
        ({
            let r = read_line(st, parameter + " = "@ + value);
            let key = setting_key(parameter);
            let v = setting_value(value);
            match st.current {
                Some(g) => {
                    &&& r.current == Some(set_graphic(g, key, v))
                    &&& r.config == st.config
                    &&& r.unknown == (if graphic_key_known(key) {
                        st.unknown
                    } else {
                        st.unknown.push((key, v))
                    })
                },
                None => {
                    &&& r.current is None
                    &&& r.config == set_config(st.config, key, v)
                    &&& r.unknown == (if config_key_known(key) {
                        st.unknown
                    } else {
                        st.unknown.push((key, v))
                    })
                },
            }
        }),
{
    reveal_strlit(" = ");
    let sep = " = "@;
    let l = parameter + sep + value;
    let n = parameter.len() as int;
    assert(line_kept(l)) by {
        assert(l[0] == parameter[0]);
    }
    assert forall|k: int| 0 <= k < n implies !matches_at(l, sep, k) by {
        if matches_at(l, sep, k) {
            assert(l.subrange(k, k + 3)[1] == sep[1]);
            if k + 1 < n {
                assert(l[k + 1] == parameter[k + 1]);
            } else {
                assert(l[k + 1] == ' ');
            }
        }
    }
    assert(l.subrange(n, n + 3) =~= sep);
    lemma_find_skips(l, sep, 0, n);
    assert(find(l, sep) == Some(n));
    assert(l.take(n) =~= parameter);
    assert(l.skip(n + 3) =~= value);
}

} // verus!
