//! Configuration values: the theme (named colors and tokens), the view, diff,
//! blame, time, syntax, playback, file-panel and navigation settings with
//! their defaults, and the config file's candidate locations.

use vstd::prelude::*;
use crate::text::strings_view;
use crate::paths::{
    extension, file_name_range, file_stem, join, last_dot_in, path_join, stem_of, with_extension,
};
use crate::text::{chars_of, has_prefix_at, slice_chars, string_from_chars};
use crate::types::ViewMode;

verus! {

// ============================================================================
// Theme
// ============================================================================

/// Dark/light color pair for a theme token.
#[derive(Debug)]
pub struct DarkLight {
    pub dark: String,
    pub light: Option<String>,
}

impl DarkLight {
    /// A copy of this pair.
    pub fn copy(&self) -> (r: Self)
        ensures
            r == *self,
    {
        DarkLight {
            dark: self.dark.clone(),
            light: match &self.light {
                Some(l) => Some(l.clone()),
                None => None,
            },
        }
    }
}

fn copy_token(t: &Option<DarkLight>) -> (r: Option<DarkLight>)
    ensures
        r == *t,
{
    match t {
        Some(d) => Some(d.copy()),
        None => None,
    }
}

/// Theme tokens: an optional dark/light color for each role.
#[derive(Debug)]
pub struct ThemeTokens {
    pub text: Option<DarkLight>,
    pub text_muted: Option<DarkLight>,
    pub primary: Option<DarkLight>,
    pub secondary: Option<DarkLight>,
    pub accent: Option<DarkLight>,
    pub error: Option<DarkLight>,
    pub warning: Option<DarkLight>,
    pub success: Option<DarkLight>,
    pub info: Option<DarkLight>,
    pub background: Option<DarkLight>,
    pub background_panel: Option<DarkLight>,
    pub background_element: Option<DarkLight>,
    pub border: Option<DarkLight>,
    pub border_active: Option<DarkLight>,
    pub border_subtle: Option<DarkLight>,
    pub diff_added: Option<DarkLight>,
    pub diff_added_bg: Option<DarkLight>,
    pub diff_removed: Option<DarkLight>,
    pub diff_removed_bg: Option<DarkLight>,
    pub diff_context: Option<DarkLight>,
    pub diff_line_number: Option<DarkLight>,
    pub diff_ext_marker: Option<DarkLight>,
    pub diff_modified_bg: Option<DarkLight>,
}

/// The tokens of a theme that sets none.
pub open spec fn no_tokens() -> ThemeTokens {
    ThemeTokens {
        text: None,
        text_muted: None,
        primary: None,
        secondary: None,
        accent: None,
        error: None,
        warning: None,
        success: None,
        info: None,
        background: None,
        background_panel: None,
        background_element: None,
        border: None,
        border_active: None,
        border_subtle: None,
        diff_added: None,
        diff_added_bg: None,
        diff_removed: None,
        diff_removed_bg: None,
        diff_context: None,
        diff_line_number: None,
        diff_ext_marker: None,
        diff_modified_bg: None,
    }
}

impl Default for ThemeTokens {
    fn default() -> (r: Self)
        ensures
            r == no_tokens(),
    {
        ThemeTokens {
            text: None,
            text_muted: None,
            primary: None,
            secondary: None,
            accent: None,
            error: None,
            warning: None,
            success: None,
            info: None,
            background: None,
            background_panel: None,
            background_element: None,
            border: None,
            border_active: None,
            border_subtle: None,
            diff_added: None,
            diff_added_bg: None,
            diff_removed: None,
            diff_removed_bg: None,
            diff_context: None,
            diff_line_number: None,
            diff_ext_marker: None,
            diff_modified_bg: None,
        }
    }
}

/// A token of `overlay` when it has one, else the token of `base`.
pub open spec fn pick_token(base: Option<DarkLight>, overlay: Option<DarkLight>) -> Option<DarkLight> {
    if overlay is Some {
        overlay
    } else {
        base
    }
}

/// `base` with every token that `overlay` sets taken from `overlay`.
pub open spec fn merge_tokens_spec(base: ThemeTokens, overlay: ThemeTokens) -> ThemeTokens {
    ThemeTokens {
        text: pick_token(base.text, overlay.text),
        text_muted: pick_token(base.text_muted, overlay.text_muted),
        primary: pick_token(base.primary, overlay.primary),
        secondary: pick_token(base.secondary, overlay.secondary),
        accent: pick_token(base.accent, overlay.accent),
        error: pick_token(base.error, overlay.error),
        warning: pick_token(base.warning, overlay.warning),
        success: pick_token(base.success, overlay.success),
        info: pick_token(base.info, overlay.info),
        background: pick_token(base.background, overlay.background),
        background_panel: pick_token(base.background_panel, overlay.background_panel),
        background_element: pick_token(base.background_element, overlay.background_element),
        border: pick_token(base.border, overlay.border),
        border_active: pick_token(base.border_active, overlay.border_active),
        border_subtle: pick_token(base.border_subtle, overlay.border_subtle),
        diff_added: pick_token(base.diff_added, overlay.diff_added),
        diff_added_bg: pick_token(base.diff_added_bg, overlay.diff_added_bg),
        diff_removed: pick_token(base.diff_removed, overlay.diff_removed),
        diff_removed_bg: pick_token(base.diff_removed_bg, overlay.diff_removed_bg),
        diff_context: pick_token(base.diff_context, overlay.diff_context),
        diff_line_number: pick_token(base.diff_line_number, overlay.diff_line_number),
        diff_ext_marker: pick_token(base.diff_ext_marker, overlay.diff_ext_marker),
        diff_modified_bg: pick_token(base.diff_modified_bg, overlay.diff_modified_bg),
    }
}

fn pick(base: Option<DarkLight>, overlay: &Option<DarkLight>) -> (r: Option<DarkLight>)
    ensures
        r == pick_token(base, *overlay),
{
    if overlay.is_some() {
        copy_token(overlay)
    } else {
        base
    }
}

/// Overrides the tokens of `base` with those that `overlay` sets.
pub fn merge_theme_tokens(base: &mut ThemeTokens, overlay: &ThemeTokens)
    ensures
        *final(base) == merge_tokens_spec(*old(base), *overlay),
{
    let mut b = ThemeTokens::default();
    std::mem::swap(&mut b, base);
    *base = ThemeTokens {
        text: pick(b.text, &overlay.text),
        text_muted: pick(b.text_muted, &overlay.text_muted),
        primary: pick(b.primary, &overlay.primary),
        secondary: pick(b.secondary, &overlay.secondary),
        accent: pick(b.accent, &overlay.accent),
        error: pick(b.error, &overlay.error),
        warning: pick(b.warning, &overlay.warning),
        success: pick(b.success, &overlay.success),
        info: pick(b.info, &overlay.info),
        background: pick(b.background, &overlay.background),
        background_panel: pick(b.background_panel, &overlay.background_panel),
        background_element: pick(b.background_element, &overlay.background_element),
        border: pick(b.border, &overlay.border),
        border_active: pick(b.border_active, &overlay.border_active),
        border_subtle: pick(b.border_subtle, &overlay.border_subtle),
        diff_added: pick(b.diff_added, &overlay.diff_added),
        diff_added_bg: pick(b.diff_added_bg, &overlay.diff_added_bg),
        diff_removed: pick(b.diff_removed, &overlay.diff_removed),
        diff_removed_bg: pick(b.diff_removed_bg, &overlay.diff_removed_bg),
        diff_context: pick(b.diff_context, &overlay.diff_context),
        diff_line_number: pick(b.diff_line_number, &overlay.diff_line_number),
        diff_ext_marker: pick(b.diff_ext_marker, &overlay.diff_ext_marker),
        diff_modified_bg: pick(b.diff_modified_bg, &overlay.diff_modified_bg),
    };
}

/// The names of the built-in themes.
pub open spec fn builtin_theme_names_spec() -> Seq<Seq<char>> {
    seq![
        "aura"@,
        "ayu"@,
        "catppuccin"@,
        "catppuccin-frappe"@,
        "catppuccin-macchiato"@,
        "cobalt2"@,
        "dracula"@,
        "everforest"@,
        "flexoki"@,
        "github"@,
        "gruvbox"@,
        "kanagawa"@,
        "material"@,
        "monokai"@,
        "nightowl"@,
        "nord"@,
        "one-dark"@,
        "palenight"@,
        "rosepine"@,
        "solarized"@,
        "synthwave84"@,
        "tokyonight"@,
        "zenburn"@,
    ]
}

/// The views of a sequence of string slices.
pub open spec fn strs_view(s: Seq<&str>) -> Seq<Seq<char>> {
    s.map_values(|x: &str| x@)
}

/// The names of the built-in themes, in order.
pub fn builtin_theme_names() -> (r: Vec<&'static str>)
    ensures
        strs_view(r@) == builtin_theme_names_spec(),
{
    let r = vec![
        "aura",
        "ayu",
        "catppuccin",
        "catppuccin-frappe",
        "catppuccin-macchiato",
        "cobalt2",
        "dracula",
        "everforest",
        "flexoki",
        "github",
        "gruvbox",
        "kanagawa",
        "material",
        "monokai",
        "nightowl",
        "nord",
        "one-dark",
        "palenight",
        "rosepine",
        "solarized",
        "synthwave84",
        "tokyonight",
        "zenburn",
    ];
    assert(strs_view(r@) =~= builtin_theme_names_spec());
    r
}

// ============================================================================
// Folding
// ============================================================================


/// Context folding display mode.
#[derive(Debug, Clone, Copy, PartialEq, Eq, Structural)]
pub enum FoldContextMode {
    /// No folding
    Off,
    /// Fold with a minimal marker
    On,
    /// Fold with a line count marker
    Counts,
}

impl FoldContextMode {
    /// Folding happens in every mode but `Off`.
    pub fn is_enabled(self) -> (r: bool)
        ensures
            r == (self != FoldContextMode::Off),
    {
        !matches!(self, FoldContextMode::Off)
    }

    /// Only `Counts` labels a fold with its number of lines.
    pub fn show_counts(self) -> (r: bool)
        ensures
            r == (self == FoldContextMode::Counts),
    {
        matches!(self, FoldContextMode::Counts)
    }
}

impl Default for FoldContextMode {
    fn default() -> (r: Self)
        ensures
            r == FoldContextMode::Off,
    {
        FoldContextMode::Off
    }
}

/// Lower-case form of an ASCII letter; other characters are unchanged.
pub open spec fn ascii_lower(c: char) -> char {
    if 'A' <= c && c <= 'Z' {
        ((c as u8) + 32) as char
    } else {
        c
    }
}

/// `str::eq_ignore_ascii_case`.
pub open spec fn eq_ignore_ascii_case(a: Seq<char>, b: Seq<char>) -> bool {
    a.len() == b.len() && forall|i: int| 0 <= i < a.len() ==> ascii_lower(#[trigger] a[i]) == ascii_lower(b[i])
}

pub(crate) fn char_ascii_lower(c: char) -> (r: char)
    ensures
        r == ascii_lower(c),
{
    if 'A' <= c && c <= 'Z' {
        ((c as u8) + 32) as char
    } else {
        c
    }
}

/// Whether `a` and `b` are equal up to ASCII case.
pub fn chars_eq_ignore_ascii_case(a: &[char], b: &[char]) -> (r: bool)
    ensures
        r == eq_ignore_ascii_case(a@, b@),
{
    if a.len() != b.len() {
        return false;
    }
    let mut i: usize = 0;
    while i < a.len()
        invariant
            0 <= i <= a.len(),
            a.len() == b.len(),
            forall|j: int| 0 <= j < i ==> ascii_lower(#[trigger] a@[j]) == ascii_lower(b@[j]),
        decreases a.len() - i,
    {
        if char_ascii_lower(a[i]) != char_ascii_lower(b[i]) {
            return false;
        }
        i = i + 1;
    }
    true
}

/// Named colors: later definitions of a name replace earlier ones.
pub open spec fn defs_map(d: Seq<(String, String)>) -> Map<Seq<char>, Seq<char>>
    decreases d.len(),
{
    if d.len() == 0 {
        Map::empty()
    } else {
        defs_map(d.drop_last()).insert(d.last().0@, d.last().1@)
    }
}

/// Theme configuration: a theme name, a mode, named colors and tokens.
#[derive(Debug)]
pub struct ThemeConfig {
    /// Built-in or custom theme name (e.g. "tokyonight").
    pub name: Option<String>,
    /// Theme mode: "dark" or "light".
    pub mode: Option<String>,
    /// Named color definitions (e.g. green1 = "#A3BE8C"), later ones winning.
    pub defs: Vec<(String, String)>,
    /// Theme tokens with dark/light values.
    pub theme: ThemeTokens,
}

impl Default for ThemeConfig {
    fn default() -> (r: Self)
        ensures
            r.name is None,
            r.mode is None,
            r.defs@.len() == 0,
            r.theme == no_tokens(),
    {
        ThemeConfig { name: None, mode: None, defs: Vec::new(), theme: ThemeTokens::default() }
    }
}

fn copy_opt_string(s: &Option<String>) -> (r: Option<String>)
    ensures
        r == *s,
{
    match s {
        Some(x) => Some(x.clone()),
        None => None,
    }
}

/// The word "light".
pub open spec fn light_word() -> Seq<char> {
    seq!['l', 'i', 'g', 'h', 't']
}

/// The theme that a configuration resolves to over the theme it names
/// (`loaded`, or a theme that sets nothing when none could be loaded): the
/// configuration's name; its mode when it sets one, else the loaded one; the
/// loaded named colors followed by the configuration's, which win; and the
/// loaded tokens overridden by those that the configuration sets.
pub open spec fn resolved_spec(cfg: ThemeConfig, loaded: Option<ThemeConfig>, r: ThemeConfig) -> bool {
    let base_mode = match loaded {
        Some(c) => c.mode,
        None => None,
    };
    let base_defs = match loaded {
        Some(c) => c.defs@,
        None => Seq::empty(),
    };
    let base_tokens = match loaded {
        Some(c) => c.theme,
        None => no_tokens(),
    };
    &&& r.name == cfg.name
    &&& r.mode == (if cfg.mode is Some {
        cfg.mode
    } else {
        base_mode
    })
    &&& r.defs@ == base_defs + cfg.defs@
    &&& r.theme == merge_tokens_spec(base_tokens, cfg.theme)
}

impl ThemeConfig {
    /// Whether the configuration asks for the light mode (`light`, in any
    /// ASCII case).
    pub fn is_light_mode(&self) -> (r: bool)
        ensures
            r == (self.mode is Some && eq_ignore_ascii_case(self.mode->0@, light_word())),
    {
        match &self.mode {
            Some(m) => {
                let mc = chars_of(m.as_str());
                let mut lw: Vec<char> = Vec::new();
                lw.push('l');
                lw.push('i');
                lw.push('g');
                lw.push('h');
                lw.push('t');
                assert(lw@ =~= light_word());
                chars_eq_ignore_ascii_case(mc.as_slice(), lw.as_slice())
            },
            None => false,
        }
    }

    /// Resolves this configuration over the theme it names, as loaded by the
    /// caller (`None` when it names none or it could not be loaded).
    pub fn resolved_config(&self, loaded: Option<ThemeConfig>) -> (r: ThemeConfig)
        ensures
            resolved_spec(*self, loaded, r),
    {
        let mut base = match loaded {
            Some(c) => c,
            None => ThemeConfig::default(),
        };
        let ghost base_defs = base.defs@;
        base.name = copy_opt_string(&self.name);
        if self.mode.is_some() {
            base.mode = copy_opt_string(&self.mode);
        }
        let ghost name = base.name;
        let ghost mode = base.mode;
        let ghost theme = base.theme;
        let mut i: usize = 0;
        while i < self.defs.len()
            invariant
                0 <= i <= self.defs.len(),
                base.name == name,
                base.mode == mode,
                base.theme == theme,
                base.defs@ == base_defs + self.defs@.take(i as int),
            decreases self.defs.len() - i,
        {
            let (k, v) = &self.defs[i];
            base.defs.push((k.clone(), v.clone()));
            assert(self.defs@.take(i + 1) =~= self.defs@.take(i as int).push(self.defs@[i as int]));
            assert(base.defs@ =~= base_defs + self.defs@.take(i + 1));
            i = i + 1;
        }
        assert(self.defs@.take(self.defs.len() as int) =~= self.defs@);
        merge_theme_tokens(&mut base.theme, &self.theme);
        base
    }
}

/// The named colors of two definition lists, one after the other: those of
/// the second win.
pub proof fn law_later_defs_win(a: Seq<(String, String)>, b: Seq<(String, String)>)
    ensures
        defs_map(a + b) == defs_map(a).union_prefer_right(defs_map(b)),
    decreases b.len(),
{
    if b.len() == 0 {
        assert(a + b =~= a);
        assert(defs_map(a).union_prefer_right(defs_map(b)) =~= defs_map(a));
    } else {
        law_later_defs_win(a, b.drop_last());
        assert((a + b).drop_last() =~= a + b.drop_last());
        assert((a + b).last() == b.last());
        assert(defs_map(a + b) =~= defs_map(a).union_prefer_right(defs_map(b)));
    }
}

// ============================================================================
// Theme files
// ============================================================================

/// `s` with `pat` (non-empty) removed from its end as long as it ends with
/// it (`str::trim_end_matches`).
pub open spec fn trim_end_matches(s: Seq<char>, pat: Seq<char>) -> Seq<char>
    decreases s.len(),
{
    if pat.len() > 0 && pat.len() <= s.len() && s.skip(s.len() - pat.len()) == pat {
        trim_end_matches(s.take(s.len() - pat.len()), pat)
    } else {
        s
    }
}

/// `s` ends with `pat`.
pub open spec fn ends_with(s: Seq<char>, pat: Seq<char>) -> bool {
    pat.len() <= s.len() && s.skip(s.len() - pat.len()) == pat
}

fn chars_end_with(s: &Vec<char>, n: usize, pat: &Vec<char>) -> (r: bool)
    requires
        n <= s.len(),
    ensures
        r == ends_with(s@.take(n as int), pat@),
{
    if pat.len() > n {
        return false;
    }
    let r = has_prefix_at(s.as_slice(), n - pat.len(), pat.as_slice());
    assert(s@.take(n as int).skip(n - pat.len()) =~= s@.subrange(n - pat.len(), n as int));
    r
}

fn trim_end_matches_chars(s: &Vec<char>, pat: &Vec<char>) -> (r: Vec<char>)
    requires
        pat.len() > 0,
    ensures
        r@ == trim_end_matches(s@, pat@),
{
    let mut n: usize = s.len();
    assert(s@.take(n as int) =~= s@);
    while chars_end_with(s, n, pat)
        invariant
            0 <= n <= s.len(),
            pat.len() > 0,
            trim_end_matches(s@, pat@) == trim_end_matches(s@.take(n as int), pat@),
        decreases n,
    {
        assert(s@.take(n as int).take(n - pat.len()) =~= s@.take(n - pat.len()));
        n = n - pat.len();
    }
    slice_chars(s.as_slice(), 0, n)
}

/// The name a custom theme file stands for: its file stem (the name itself
/// when it has none) without trailing `-dark`, then `-light`.
pub open spec fn custom_theme_name_spec(name: Seq<char>) -> Seq<char> {
    let stem = match file_stem(name) {
        Some(s) => s,
        None => name,
    };
    trim_end_matches(trim_end_matches(stem, "-dark"@), "-light"@)
}

fn stem_chars(c: &Vec<char>) -> (r: Vec<char>)
    ensures
        r@ == match file_stem(c@) {
            Some(s) => s,
            None => c@,
        },
{
    match file_name_range(c.as_slice()) {
        Some((s, e)) => {
            let ghost f = c@.subrange(s as int, e as int);
            match last_dot_in(c.as_slice(), s, e) {
                Some(d) => if d > 0 {
                    let r = slice_chars(c.as_slice(), s, s + d);
                    assert(r@ =~= f.take(d as int));
                    r
                } else {
                    slice_chars(c.as_slice(), s, e)
                },
                None => slice_chars(c.as_slice(), s, e),
            }
        },
        None => slice_chars(c.as_slice(), 0, c.len()),
    }
}

/// The name that a custom theme file `name` stands for.
pub fn normalize_custom_theme_name(name: &str) -> (r: String)
    ensures
        r@ == custom_theme_name_spec(name@),
{
    let c = chars_of(name);
    assert(c@.subrange(0, c.len() as int) =~= c@);
    let stem = stem_chars(&c);
    let dark = chars_of("-dark");
    let light = chars_of("-light");
    proof {
        reveal_strlit("-dark");
        reveal_strlit("-light");
    }
    let t = trim_end_matches_chars(&stem, &dark);
    let u = trim_end_matches_chars(&t, &light);
    string_from_chars(u.as_slice())
}

/// Where a theme file is looked for.
#[derive(Debug)]
pub enum ThemeLookup {
    /// At a path: the file itself, else (when it has no `.json` extension)
    /// the same path with that extension.
    Direct { path: String, with_json: Option<String> },
    /// Under these file names in each theme directory, in order.
    Search { candidates: Vec<String> },
}

/// The word "json".
pub open spec fn json_word() -> Seq<char> {
    seq!['j', 's', 'o', 'n']
}

/// `name` has a `.json` extension, in any ASCII case.
pub open spec fn has_json_ext(name: Seq<char>) -> bool {
    extension(name) is Some && eq_ignore_ascii_case(extension(name)->0, json_word())
}

/// The file names a theme `name` (with no `/`) is looked for under: for a
/// name without a `-light` or `-dark` variant, the variant of the current
/// mode, the plain name and the other variant; for a variant written with its
/// extension, the name itself; else the variant with `.json`.
pub open spec fn theme_candidates_spec(name: Seq<char>, light_mode: bool) -> Seq<Seq<char>> {
    let ext = has_json_ext(name);
    let stem = if ext {
        match file_stem(name) {
            Some(s) => s,
            None => name,
        }
    } else {
        name
    };
    let has_variant = ends_with(stem, "-light"@) || ends_with(stem, "-dark"@);
    if !has_variant {
        if light_mode {
            seq![stem + "-light.json"@, stem + ".json"@, stem + "-dark.json"@]
        } else {
            seq![stem + "-dark.json"@, stem + ".json"@, stem + "-light.json"@]
        }
    } else if ext {
        seq![name]
    } else {
        seq![stem + ".json"@]
    }
}

/// Where the theme `name` is looked for: a name with a `/` is a path (see
/// [`ThemeLookup::Direct`]); any other is searched for in the theme
/// directories under [`theme_candidates_spec`].
pub open spec fn theme_lookup_spec(name: Seq<char>, light_mode: bool, r: ThemeLookup) -> bool {
    if name.contains('/') {
        r matches ThemeLookup::Direct { path, with_json } && path@ == name && opt_view(with_json) == (if has_json_ext(
            name,
        ) {
            None
        } else {
            Some(with_extension(name, json_word()))
        })
    } else {
        r matches ThemeLookup::Search { candidates } && strings_view(candidates@) == theme_candidates_spec(
            name,
            light_mode,
        )
    }
}

fn push_str_chars(out: &mut Vec<char>, s: &str)
    ensures
        final(out)@ == old(out)@ + s@,
{
    let c = chars_of(s);
    let ghost start = out@;
    let mut i: usize = 0;
    while i < c.len()
        invariant
            0 <= i <= c.len(),
            c@ == s@,
            out@ == start + c@.take(i as int),
        decreases c.len() - i,
    {
        out.push(c[i]);
        assert(c@.take(i + 1) =~= c@.take(i as int).push(c@[i as int]));
        i = i + 1;
    }
    assert(c@.take(c.len() as int) =~= c@);
}

fn with_suffix(stem: &Vec<char>, suffix: &str) -> (r: String)
    ensures
        r@ == stem@ + suffix@,
{
    let mut out = slice_chars(stem.as_slice(), 0, stem.len());
    assert(stem@.subrange(0, stem.len() as int) =~= stem@);
    push_str_chars(&mut out, suffix);
    string_from_chars(out.as_slice())
}

/// Where the theme `name` is looked for in the current mode.
pub fn resolve_theme_json_path(name: &str, light_mode: bool) -> (r: ThemeLookup)
    ensures
        theme_lookup_spec(name@, light_mode, r),
{
    let c = chars_of(name);
    let ghost n = name@;
    assert(c@.subrange(0, c.len() as int) =~= c@);
    let mut json: Vec<char> = Vec::new();
    json.push('j');
    json.push('s');
    json.push('o');
    json.push('n');
    assert(json@ =~= json_word());
    // The extension, when there is one.
    let range = file_name_range(c.as_slice());
    let has_ext = match range {
        Some((s, e)) => match last_dot_in(c.as_slice(), s, e) {
            Some(d) => if d > 0 {
                let ext = slice_chars(c.as_slice(), s + d + 1, e);
                proof {
                    let f = c@.subrange(s as int, e as int);
                    assert(ext@ =~= f.skip(d + 1));
                }
                chars_eq_ignore_ascii_case(ext.as_slice(), json.as_slice())
            } else {
                false
            },
            None => false,
        },
        None => false,
    };
    let mut slash = false;
    let mut i: usize = 0;
    while i < c.len()
        invariant
            0 <= i <= c.len(),
            c@ == name@,
            slash == exists|j: int| 0 <= j < i && c@[j] == '/',
        decreases c.len() - i,
    {
        if c[i] == '/' {
            slash = true;
        }
        i = i + 1;
    }
    proof {
        if slash {
            let j = choose|j: int| 0 <= j < c.len() && c@[j] == '/';
            assert(n.contains('/'));
        } else {
            assert(!n.contains('/'));
        }
    }
    if slash {
        let with_json = if has_ext {
            None
        } else {
            match range {
                Some((s, e)) => {
                    let stem_end = match last_dot_in(c.as_slice(), s, e) {
                        Some(d) => if d > 0 {
                            s + d
                        } else {
                            e
                        },
                        None => e,
                    };
                    let mut out = slice_chars(c.as_slice(), 0, stem_end);
                    out.push('.');
                    out.push('j');
                    out.push('s');
                    out.push('o');
                    out.push('n');
                    proof {
                        let f = c@.subrange(s as int, e as int);
                        assert(stem_of(f).len() + s == stem_end);
                        assert(out@ =~= with_extension(n, json_word()));
                    }
                    Some(string_from_chars(out.as_slice()))
                },
                None => Some(name.to_owned()),
            }
        };
        return ThemeLookup::Direct { path: name.to_owned(), with_json };
    }
    let stem = if has_ext {
        stem_chars(&c)
    } else {
        slice_chars(c.as_slice(), 0, c.len())
    };
    let light_c = chars_of("-light");
    let dark_c = chars_of("-dark");
    let has_variant = chars_end_with(&stem, stem.len(), &light_c) || chars_end_with(
        &stem,
        stem.len(),
        &dark_c,
    );
    assert(stem@.take(stem.len() as int) =~= stem@);
    let mut candidates: Vec<String> = Vec::new();
    if !has_variant {
        if light_mode {
            candidates.push(with_suffix(&stem, "-light.json"));
            candidates.push(with_suffix(&stem, ".json"));
            candidates.push(with_suffix(&stem, "-dark.json"));
        } else {
            candidates.push(with_suffix(&stem, "-dark.json"));
            candidates.push(with_suffix(&stem, ".json"));
            candidates.push(with_suffix(&stem, "-light.json"));
        }
    } else if has_ext {
        candidates.push(name.to_owned());
    } else {
        candidates.push(with_suffix(&stem, ".json"));
    }
    let r = ThemeLookup::Search { candidates };
    assert(strings_view(candidates@) =~= theme_candidates_spec(n, light_mode)) by {
        assert(has_ext == has_json_ext(n));
    }
    r
}

// ============================================================================
// Settings
// ============================================================================

/// Step wrap behavior at the ends of a file.
#[derive(Debug, Clone, Copy, PartialEq, Eq, Structural)]
pub enum StepWrapMode {
    NoWrap,
    Step,
    File,
}

impl Default for StepWrapMode {
    fn default() -> (r: Self)
        ensures
            r == StepWrapMode::NoWrap,
    {
        StepWrapMode::NoWrap
    }
}

/// Hunk wrap behavior at the ends of a file.
#[derive(Debug, Clone, Copy, PartialEq, Eq, Structural)]
pub enum HunkWrapMode {
    NoWrap,
    Hunk,
    File,
}

impl Default for HunkWrapMode {
    fn default() -> (r: Self)
        ensures
            r == HunkWrapMode::NoWrap,
    {
        HunkWrapMode::NoWrap
    }
}

/// Navigation wrap configuration.
#[derive(Debug, Clone, Copy, PartialEq, Eq, Structural)]
pub struct WrapConfig {
    pub step: StepWrapMode,
    pub hunk: HunkWrapMode,
}

impl Default for WrapConfig {
    fn default() -> (r: Self)
        ensures
            r == (WrapConfig { step: StepWrapMode::NoWrap, hunk: HunkWrapMode::NoWrap }),
    {
        WrapConfig { step: StepWrapMode::default(), hunk: HunkWrapMode::default() }
    }
}

/// Navigation configuration.
#[derive(Debug, Clone, Copy, PartialEq, Eq, Structural)]
pub struct NavigationConfig {
    pub wrap: WrapConfig,
}

impl Default for NavigationConfig {
    fn default() -> (r: Self)
        ensures
            r.wrap == (WrapConfig { step: StepWrapMode::NoWrap, hunk: HunkWrapMode::NoWrap }),
    {
        NavigationConfig { wrap: WrapConfig::default() }
    }
}

/// Split view configuration.
#[derive(Debug)]
pub struct SplitViewConfig {
    /// Insert blank rows for missing lines to keep panes vertically aligned.
    pub align_lines: bool,
    /// Fill character for aligned blank rows (empty = no marker).
    pub align_fill: String,
}

impl Default for SplitViewConfig {
    fn default() -> (r: Self)
        ensures
            !r.align_lines,
            r.align_fill@ == "╱"@,
    {
        SplitViewConfig { align_lines: false, align_fill: "╱".to_owned() }
    }
}

/// Single-pane modified line rendering mode.
#[derive(Debug, Clone, Copy, PartialEq, Eq, Structural)]
pub enum ModifiedStepMode {
    Mixed,
    Modified,
}

impl Default for ModifiedStepMode {
    fn default() -> (r: Self)
        ensures
            r == ModifiedStepMode::Mixed,
    {
        ModifiedStepMode::Mixed
    }
}

/// Single-pane configuration.
#[derive(Debug, Clone, Copy, PartialEq, Eq, Structural)]
pub struct UnifiedViewConfig {
    /// How modified lines render while stepping.
    pub modified_step_mode: ModifiedStepMode,
}

impl Default for UnifiedViewConfig {
    fn default() -> (r: Self)
        ensures
            r.modified_step_mode == ModifiedStepMode::Mixed,
    {
        UnifiedViewConfig { modified_step_mode: ModifiedStepMode::Mixed }
    }
}

/// Evolution view syntax scope.
#[derive(Debug, Clone, Copy, PartialEq, Eq, Structural)]
pub enum EvoSyntaxMode {
    /// Syntax highlight only non-diff context lines.
    Context,
    /// Syntax highlight all non-active lines (including diffs).
    Full,
}

impl Default for EvoSyntaxMode {
    fn default() -> (r: Self)
        ensures
            r == EvoSyntaxMode::Context,
    {
        EvoSyntaxMode::Context
    }
}

/// Evolution view configuration.
#[derive(Debug, Clone, Copy, PartialEq, Eq, Structural)]
pub struct EvoViewConfig {
    pub syntax: EvoSyntaxMode,
}

impl Default for EvoViewConfig {
    fn default() -> (r: Self)
        ensures
            r.syntax == EvoSyntaxMode::Context,
    {
        EvoViewConfig { syntax: EvoSyntaxMode::Context }
    }
}

/// Diff foreground rendering mode.
#[derive(Debug, Clone, Copy, PartialEq, Eq, Structural)]
pub enum DiffForegroundMode {
    Theme,
    Syntax,
}

impl Default for DiffForegroundMode {
    fn default() -> (r: Self)
        ensures
            r == DiffForegroundMode::Theme,
    {
        DiffForegroundMode::Theme
    }
}

/// Inline diff highlight mode.
#[derive(Debug, Clone, Copy, PartialEq, Eq, Structural)]
pub enum DiffHighlightMode {
    Text,
    Word,
    NoHighlight,
}

impl Default for DiffHighlightMode {
    fn default() -> (r: Self)
        ensures
            r == DiffHighlightMode::Text,
    {
        DiffHighlightMode::Text
    }
}

/// Extent marker color mode.
#[derive(Debug, Clone, Copy, PartialEq, Eq, Structural)]
pub enum DiffExtentMarkerMode {
    Neutral,
    Diff,
}

impl Default for DiffExtentMarkerMode {
    fn default() -> (r: Self)
        ensures
            r == DiffExtentMarkerMode::Neutral,
    {
        DiffExtentMarkerMode::Neutral
    }
}

/// Extent marker scope.
#[derive(Debug, Clone, Copy, PartialEq, Eq, Structural)]
pub enum DiffExtentMarkerScope {
    Progress,
    Hunk,
}

impl Default for DiffExtentMarkerScope {
    fn default() -> (r: Self)
        ensures
            r == DiffExtentMarkerScope::Progress,
    {
        DiffExtentMarkerScope::Progress
    }
}

/// Default of the full-line diff background: off.
pub fn diff_bg_default() -> (r: bool)
    ensures
        !r,
{
    false
}

/// Default diff foreground mode: the theme's colors.
pub fn diff_fg_default() -> (r: DiffForegroundMode)
    ensures
        r == DiffForegroundMode::Theme,
{
    DiffForegroundMode::Theme
}

/// Default inline highlight mode: text.
pub fn diff_highlight_default() -> (r: DiffHighlightMode)
    ensures
        r == DiffHighlightMode::Text,
{
    DiffHighlightMode::Text
}

/// Default diff size limit: 16 MiB.
pub fn diff_max_bytes_default() -> (r: u64)
    ensures
        r == 16 * 1024 * 1024,
{
    16 * 1024 * 1024
}

/// Default full-context size limit: 2 MiB.
pub fn diff_full_context_max_bytes_default() -> (r: u64)
    ensures
        r == 2 * 1024 * 1024,
{
    2 * 1024 * 1024
}

/// Large diffs are deferred by default.
pub fn diff_defer_default() -> (r: bool)
    ensures
        r,
{
    true
}

/// Default idle time before a background diff: 250 ms.
pub fn diff_idle_ms_default() -> (r: u64)
    ensures
        r == 250,
{
    250
}

/// Default extent marker color mode: neutral.
pub fn diff_extent_marker_default() -> (r: DiffExtentMarkerMode)
    ensures
        r == DiffExtentMarkerMode::Neutral,
{
    DiffExtentMarkerMode::Neutral
}

/// Default extent marker scope: progress.
pub fn diff_extent_marker_scope_default() -> (r: DiffExtentMarkerScope)
    ensures
        r == DiffExtentMarkerScope::Progress,
{
    DiffExtentMarkerScope::Progress
}

/// Extent markers are not shown on context lines by default.
pub fn diff_extent_marker_context_default() -> (r: bool)
    ensures
        !r,
{
    false
}

/// Diff styling configuration.
#[derive(Debug, Clone, Copy, PartialEq, Eq, Structural)]
pub struct DiffConfig {
    /// Diff background (full-line) toggle.
    pub bg: bool,
    /// Diff foreground mode.
    pub fg: DiffForegroundMode,
    /// Inline diff highlight mode.
    pub highlight: DiffHighlightMode,
    /// Maximum diff size before stepping is disabled (bytes).
    pub max_bytes: u64,
    /// Maximum file size to render with full context (bytes).
    pub full_context_max_bytes: u64,
    /// Defer diff computation for large files (background compute).
    pub defer: bool,
    /// Idle time (ms) before background diff computation.
    pub idle_ms: u64,
    /// Extent marker color mode.
    pub extent_marker: DiffExtentMarkerMode,
    /// Extent marker scope.
    pub extent_marker_scope: DiffExtentMarkerScope,
    /// Show extent markers on unchanged context lines within a hunk.
    pub extent_marker_context: bool,
}

impl Default for DiffConfig {
    fn default() -> (r: Self)
        ensures
            r == (DiffConfig {
                bg: false,
                fg: DiffForegroundMode::Theme,
                highlight: DiffHighlightMode::Text,
                max_bytes: 16777216u64,
                full_context_max_bytes: 2097152u64,
                defer: true,
                idle_ms: 250,
                extent_marker: DiffExtentMarkerMode::Neutral,
                extent_marker_scope: DiffExtentMarkerScope::Progress,
                extent_marker_context: false,
            }),
    {
        DiffConfig {
            bg: diff_bg_default(),
            fg: diff_fg_default(),
            highlight: diff_highlight_default(),
            max_bytes: diff_max_bytes_default(),
            full_context_max_bytes: diff_full_context_max_bytes_default(),
            defer: diff_defer_default(),
            idle_ms: diff_idle_ms_default(),
            extent_marker: diff_extent_marker_default(),
            extent_marker_scope: diff_extent_marker_scope_default(),
            extent_marker_context: diff_extent_marker_context_default(),
        }
    }
}

/// Blame display mode.
#[derive(Debug, Clone, Copy, PartialEq, Eq, Structural)]
pub enum BlameMode {
    /// Show blame only after pressing the key (clears on next step).
    OneShot,
    /// Toggle blame display for the active line.
    Toggle,
}

impl Default for BlameMode {
    fn default() -> (r: Self)
        ensures
            r == BlameMode::OneShot,
    {
        BlameMode::OneShot
    }
}

/// Blame configuration.
#[derive(Debug, Clone, Copy, PartialEq, Eq, Structural)]
pub struct BlameConfig {
    pub enabled: bool,
    pub mode: BlameMode,
    pub hunk_hint: bool,
}

impl Default for BlameConfig {
    fn default() -> (r: Self)
        ensures
            r == (BlameConfig { enabled: false, mode: BlameMode::OneShot, hunk_hint: true }),
    {
        BlameConfig { enabled: false, mode: BlameMode::OneShot, hunk_hint: true }
    }
}

/// Time display mode.
#[derive(Debug, Clone, Copy, PartialEq, Eq, Structural)]
pub enum TimeMode {
    Relative,
    Absolute,
    Custom,
}

impl Default for TimeMode {
    fn default() -> (r: Self)
        ensures
            r == TimeMode::Relative,
    {
        TimeMode::Relative
    }
}

/// Time display configuration.
#[derive(Debug)]
pub struct TimeConfig {
    pub mode: TimeMode,
    pub format: String,
}

impl Default for TimeConfig {
    fn default() -> (r: Self)
        ensures
            r.mode == TimeMode::Relative,
            r.format@.len() == 0,
    {
        TimeConfig { mode: TimeMode::Relative, format: String::new() }
    }
}

impl TimeConfig {
    /// The configuration written as a bare mode: that mode, no format.
    pub fn from_mode(mode: TimeMode) -> (r: Self)
        ensures
            r.mode == mode,
            r.format@.len() == 0,
    {
        TimeConfig { mode, format: String::new() }
    }

    /// The configuration written in full: its mode and its format (none
    /// counting as empty).
    pub fn from_detailed(mode: TimeMode, format: Option<String>) -> (r: Self)
        ensures
            r.mode == mode,
            r.format@ == match format {
                Some(f) => f@,
                None => Seq::<char>::empty(),
            },
    {
        TimeConfig {
            mode,
            format: match format {
                Some(f) => f,
                None => String::new(),
            },
        }
    }
}

/// Syntax highlighting mode.
#[derive(Debug, Clone, Copy, PartialEq, Eq, Structural)]
pub enum SyntaxMode {
    On,
    Off,
}

impl Default for SyntaxMode {
    fn default() -> (r: Self)
        ensures
            r == SyntaxMode::On,
    {
        SyntaxMode::On
    }
}

/// Lines warmed per tick when actively navigating, by default.
pub fn syntax_warmup_active_lines_default() -> (r: usize)
    ensures
        r == 100,
{
    100
}

/// Lines warmed per tick while a checkpoint is pending, by default.
pub fn syntax_warmup_pending_lines_default() -> (r: usize)
    ensures
        r == 300,
{
    300
}

/// Lines warmed per tick when idle, by default.
pub fn syntax_warmup_idle_lines_default() -> (r: usize)
    ensures
        r == 1000,
{
    1000
}

/// Debounce window (ms) before warming a new viewport target, by default.
pub fn syntax_warmup_debounce_ms_default() -> (r: u64)
    ensures
        r == 80,
{
    80
}

/// Syntax warmup configuration (background checkpointing).
#[derive(Debug, Clone, Copy, PartialEq, Eq, Structural)]
pub struct SyntaxWarmupConfig {
    /// Lines per tick when actively navigating.
    pub active_lines: usize,
    /// Lines per tick when waiting on a pending checkpoint.
    pub pending_lines: usize,
    /// Lines per tick when idle.
    pub idle_lines: usize,
    /// Debounce window (ms) before warming a new viewport target.
    pub debounce_ms: u64,
}

impl Default for SyntaxWarmupConfig {
    fn default() -> (r: Self)
        ensures
            r == (SyntaxWarmupConfig { active_lines: 100, pending_lines: 300, idle_lines: 1000, debounce_ms: 80 }),
    {
        SyntaxWarmupConfig {
            active_lines: syntax_warmup_active_lines_default(),
            pending_lines: syntax_warmup_pending_lines_default(),
            idle_lines: syntax_warmup_idle_lines_default(),
            debounce_ms: syntax_warmup_debounce_ms_default(),
        }
    }
}

/// Syntax highlighting configuration.
#[derive(Debug)]
pub struct SyntaxConfig {
    pub mode: SyntaxMode,
    pub theme: String,
    pub warmup: SyntaxWarmupConfig,
}

impl Default for SyntaxConfig {
    fn default() -> (r: Self)
        ensures
            r.mode == SyntaxMode::On,
            r.theme@.len() == 0,
            r.warmup == (SyntaxWarmupConfig { active_lines: 100, pending_lines: 300, idle_lines: 1000, debounce_ms: 80 }),
    {
        SyntaxConfig { mode: SyntaxMode::On, theme: String::new(), warmup: SyntaxWarmupConfig::default() }
    }
}

impl SyntaxConfig {
    /// The configuration written as a bare mode: that mode, the defaults
    /// otherwise.
    pub fn from_mode(mode: SyntaxMode) -> (r: Self)
        ensures
            r.mode == mode,
            r.theme@.len() == 0,
            r.warmup == (SyntaxWarmupConfig { active_lines: 100, pending_lines: 300, idle_lines: 1000, debounce_ms: 80 }),
    {
        SyntaxConfig { mode, theme: String::new(), warmup: SyntaxWarmupConfig::default() }
    }

    /// The configuration written in full: its mode, its theme (none counting
    /// as empty) and its warmup (none counting as the default).
    pub fn from_detailed(mode: SyntaxMode, theme: Option<String>, warmup: Option<SyntaxWarmupConfig>) -> (r: Self)
        ensures
            r.mode == mode,
            r.theme@ == match theme {
                Some(t) => t@,
                None => Seq::<char>::empty(),
            },
            r.warmup == match warmup {
                Some(w) => w,
                None => SyntaxWarmupConfig { active_lines: 100, pending_lines: 300, idle_lines: 1000, debounce_ms: 80 },
            },
    {
        SyntaxConfig {
            mode,
            theme: match theme {
                Some(t) => t,
                None => String::new(),
            },
            warmup: match warmup {
                Some(w) => w,
                None => SyntaxWarmupConfig::default(),
            },
        }
    }
}

/// Playback configuration.
#[derive(Debug, Clone, Copy, PartialEq, Eq, Structural)]
pub struct PlaybackConfig {
    /// Autoplay speed in milliseconds (delay between steps).
    pub speed: u64,
    /// Start with autoplay enabled.
    pub autoplay: bool,
    /// Enable step animations (fade in/out effects).
    pub animation: bool,
    /// Animation duration in milliseconds.
    pub animation_duration: u64,
    /// Auto-step to first change when entering a file at step 0.
    pub auto_step_on_enter: bool,
    /// Auto-step when a file would be blank at step 0 (new files).
    pub auto_step_blank_files: bool,
}

impl Default for PlaybackConfig {
    fn default() -> (r: Self)
        ensures
            r == (PlaybackConfig {
                speed: 200,
                autoplay: false,
                animation: true,
                animation_duration: 120,
                auto_step_on_enter: true,
                auto_step_blank_files: true,
            }),
    {
        PlaybackConfig {
            speed: 200,
            autoplay: false,
            animation: true,
            animation_duration: 120,
            auto_step_on_enter: true,
            auto_step_blank_files: true,
        }
    }
}

/// File list counts display behavior.
#[derive(Debug, Clone, Copy, PartialEq, Eq, Structural)]
pub enum FileCountMode {
    Active,
    Focused,
    All,
    Off,
}

impl Default for FileCountMode {
    fn default() -> (r: Self)
        ensures
            r == FileCountMode::Active,
    {
        FileCountMode::Active
    }
}

/// Files panel configuration.
#[derive(Debug, Clone, Copy, PartialEq, Eq, Structural)]
pub struct FilesConfig {
    /// Show file panel by default in multi-file mode.
    pub panel_visible: bool,
    /// File panel width (columns).
    pub panel_width: u16,
    /// When to show per-file +/- counts in the file panel.
    pub counts: FileCountMode,
}

impl Default for FilesConfig {
    fn default() -> (r: Self)
        ensures
            r == (FilesConfig { panel_visible: true, panel_width: 30, counts: FileCountMode::Active }),
    {
        FilesConfig { panel_visible: true, panel_width: 30, counts: FileCountMode::Active }
    }
}

/// No-step mode configuration.
#[derive(Debug, Clone, Copy, PartialEq, Eq, Structural)]
pub struct NoStepConfig {
    /// Jump to the first hunk when entering a file in no-step mode.
    pub auto_jump_on_enter: bool,
}

impl Default for NoStepConfig {
    fn default() -> (r: Self)
        ensures
            r.auto_jump_on_enter,
    {
        NoStepConfig { auto_jump_on_enter: true }
    }
}

/// UI configuration.
#[derive(Debug)]
pub struct UiConfig {
    /// Start in zen mode (minimal UI).
    pub zen: bool,
    /// Show top bar in diff view.
    pub topbar: bool,
    /// Auto-center on active change after stepping.
    pub auto_center: bool,
    /// Allow overscroll near EOF when centering.
    pub overscroll: bool,
    /// Default view mode: "unified", "split", "evolution" or "blame".
    pub view_mode: Option<String>,
    /// Enable line wrapping.
    pub line_wrap: bool,
    /// Collapse long unchanged (context) blocks.
    pub fold_context: FoldContextMode,
    /// Show scrollbar.
    pub scrollbar: bool,
    /// Show strikethrough on deleted text.
    pub strikethrough_deletions: bool,
    /// Show +/- sign column in the gutter (unified/evolution).
    pub gutter_signs: bool,
    /// Syntax highlighting configuration.
    pub syntax: SyntaxConfig,
    /// Unified view settings.
    pub unified: UnifiedViewConfig,
    /// Split view settings.
    pub split: SplitViewConfig,
    /// Evolution view settings.
    pub evo: EvoViewConfig,
    /// Diff styling settings.
    pub diff: DiffConfig,
    /// Blame display settings.
    pub blame: BlameConfig,
    /// Time display settings.
    pub time: TimeConfig,
    /// Enable stepping; if false, all changes are shown.
    pub stepping: bool,
    /// Marker for primary active line (left pane / unified pane).
    pub primary_marker: String,
    /// Marker for right pane primary line (defaults to ◀).
    pub primary_marker_right: Option<String>,
    /// Marker for hunk extent lines (left pane / unified pane).
    pub extent_marker: String,
    /// Marker for right pane extent lines (defaults to ▐).
    pub extent_marker_right: Option<String>,
    /// Theme configuration.
    pub theme: ThemeConfig,
}

impl Default for UiConfig {
    fn default() -> (r: Self)
        ensures
            !r.zen,
            r.topbar,
            r.auto_center,
            !r.overscroll,
            r.view_mode is None,
            !r.line_wrap,
            r.fold_context == FoldContextMode::Off,
            !r.scrollbar,
            !r.strikethrough_deletions,
            r.gutter_signs,
            r.syntax.mode == SyntaxMode::On,
            r.unified.modified_step_mode == ModifiedStepMode::Mixed,
            !r.split.align_lines,
            r.split.align_fill@ == "╱"@,
            r.evo.syntax == EvoSyntaxMode::Context,
            r.diff.max_bytes == 16 * 1024 * 1024,
            r.diff.defer,
            r.blame == (BlameConfig { enabled: false, mode: BlameMode::OneShot, hunk_hint: true }),
            r.time.mode == TimeMode::Relative,
            r.stepping,
            r.primary_marker@ == "▶"@,
            r.primary_marker_right is None,
            r.extent_marker@ == "▌"@,
            r.extent_marker_right is None,
            r.theme.name is None,
            r.theme.mode is None,
    {
        UiConfig {
            zen: false,
            topbar: true,
            auto_center: true,
            overscroll: false,
            view_mode: None,
            line_wrap: false,
            fold_context: FoldContextMode::Off,
            scrollbar: false,
            strikethrough_deletions: false,
            gutter_signs: true,
            syntax: SyntaxConfig::default(),
            unified: UnifiedViewConfig::default(),
            split: SplitViewConfig::default(),
            evo: EvoViewConfig::default(),
            diff: DiffConfig::default(),
            blame: BlameConfig::default(),
            time: TimeConfig::default(),
            stepping: true,
            primary_marker: "▶".to_owned(),
            primary_marker_right: None,
            extent_marker: "▌".to_owned(),
            extent_marker_right: None,
            theme: ThemeConfig::default(),
        }
    }
}

/// Root configuration.
#[derive(Debug)]
pub struct Config {
    pub ui: UiConfig,
    pub playback: PlaybackConfig,
    pub files: FilesConfig,
    pub navigation: NavigationConfig,
    pub no_step: NoStepConfig,
}

impl Default for Config {
    fn default() -> (r: Self)
        ensures
            r.ui.view_mode is None,
            r.ui.stepping,
            r.playback.speed == 200,
            r.files.panel_width == 30,
            r.navigation.wrap == (WrapConfig { step: StepWrapMode::NoWrap, hunk: HunkWrapMode::NoWrap }),
            r.no_step.auto_jump_on_enter,
    {
        Config {
            ui: UiConfig::default(),
            playback: PlaybackConfig::default(),
            files: FilesConfig::default(),
            navigation: NavigationConfig::default(),
            no_step: NoStepConfig::default(),
        }
    }
}

/// The view mode that a configured name stands for: `unified`, `split` (or
/// `sbs`), `evolution` (or `evo`), `blame`; none for any other name.
pub open spec fn view_mode_named(s: Seq<char>) -> Option<ViewMode> {
    if s == "unified"@ {
        Some(ViewMode::UnifiedPane)
    } else if s == "split"@ || s == "sbs"@ {
        Some(ViewMode::Split)
    } else if s == "evolution"@ || s == "evo"@ {
        Some(ViewMode::Evolution)
    } else if s == "blame"@ {
        Some(ViewMode::Blame)
    } else {
        None
    }
}

fn str_is(s: &str, lit: &str) -> (r: bool)
    ensures
        r == (s@ == lit@),
{
    let a = chars_of(s);
    let b = chars_of(lit);
    if a.len() != b.len() {
        return false;
    }
    let mut i: usize = 0;
    while i < a.len()
        invariant
            0 <= i <= a.len(),
            a.len() == b.len(),
            a@ == s@,
            b@ == lit@,
            forall|j: int| 0 <= j < i ==> a@[j] == b@[j],
        decreases a.len() - i,
    {
        if a[i] != b[i] {
            return false;
        }
        i = i + 1;
    }
    assert(a@ =~= b@);
    true
}

impl Config {
    /// The configured default view mode, when its name is known.
    pub fn parse_view_mode(&self) -> (r: Option<ViewMode>)
        ensures
            r == match self.ui.view_mode {
                Some(s) => view_mode_named(s@),
                None => None,
            },
    {
        match &self.ui.view_mode {
            Some(s) => {
                let s = s.as_str();
                if str_is(s, "unified") {
                    Some(ViewMode::UnifiedPane)
                } else if str_is(s, "split") || str_is(s, "sbs") {
                    Some(ViewMode::Split)
                } else if str_is(s, "evolution") || str_is(s, "evo") {
                    Some(ViewMode::Evolution)
                } else if str_is(s, "blame") {
                    Some(ViewMode::Blame)
                } else {
                    None
                }
            },
            None => None,
        }
    }

    /// Where the config file may be, in priority order, given the value of
    /// `XDG_CONFIG_HOME` (when set): see [`config_path_candidates`]; the home
    /// and platform config directories are asked of the system.
    pub fn config_paths(xdg_config_home: Option<String>) -> (r: Vec<String>)
        ensures
            exists|home: Option<Seq<char>>, config_dir: Option<Seq<char>>|
                strings_view(r@) == config_candidates_spec(opt_view(xdg_config_home), home, config_dir),
    {
        let home = home_dir();
        let config_dir = config_dir();
        let ghost h = opt_view(home);
        let ghost c = opt_view(config_dir);
        let r = config_path_candidates(xdg_config_home, home, config_dir);
        assert(strings_view(r@) == config_candidates_spec(opt_view(xdg_config_home), h, c));
        r
    }
}

/// The view of an optional string.
pub open spec fn opt_view(o: Option<String>) -> Option<Seq<char>> {
    match o {
        Some(s) => Some(s@),
        None => None,
    }
}

/// `<dir>/oyo/config.toml`.
pub open spec fn config_file_under(dir: Seq<char>) -> Seq<char> {
    join(join(dir, "oyo"@), "config.toml"@)
}

/// The config file's candidate locations: under `XDG_CONFIG_HOME` when set;
/// under `~/.config` when the home directory is known; under the platform
/// config directory when it is known and not already listed.
pub open spec fn config_candidates_spec(
    xdg: Option<Seq<char>>,
    home: Option<Seq<char>>,
    config_dir: Option<Seq<char>>,
) -> Seq<Seq<char>> {
    let first: Seq<Seq<char>> = match xdg {
        Some(x) => seq![config_file_under(x)],
        None => Seq::empty(),
    };
    let second: Seq<Seq<char>> = match home {
        Some(h) => first.push(config_file_under(join(h, ".config"@))),
        None => first,
    };
    match config_dir {
        Some(c) => if second.contains(config_file_under(c)) {
            second
        } else {
            second.push(config_file_under(c))
        },
        None => second,
    }
}

fn config_file_path(dir: &str) -> (r: String)
    ensures
        r@ == config_file_under(dir@),
{
    let d = path_join(dir, "oyo");
    path_join(d.as_str(), "config.toml")
}

/// The config file's candidate locations from the `XDG_CONFIG_HOME` value,
/// the home directory and the platform config directory, when known.
pub fn config_path_candidates(
    xdg_config_home: Option<String>,
    home: Option<String>,
    config_dir: Option<String>,
) -> (r: Vec<String>)
    ensures
        strings_view(r@) == config_candidates_spec(opt_view(xdg_config_home), opt_view(home), opt_view(config_dir)),
{
    let mut paths: Vec<String> = Vec::new();
    if let Some(x) = &xdg_config_home {
        paths.push(config_file_path(x.as_str()));
    }
    if let Some(h) = &home {
        let dot = path_join(h.as_str(), ".config");
        paths.push(config_file_path(dot.as_str()));
    }
    let ghost second = strings_view(paths@);
    assert(second =~= match opt_view(home) {
        Some(hv) => (match opt_view(xdg_config_home) {
            Some(xv) => seq![config_file_under(xv)],
            None => Seq::<Seq<char>>::empty(),
        }).push(config_file_under(join(hv, ".config"@))),
        None => match opt_view(xdg_config_home) {
            Some(xv) => seq![config_file_under(xv)],
            None => Seq::<Seq<char>>::empty(),
        },
    });
    if let Some(c) = &config_dir {
        let p = config_file_path(c.as_str());
        let mut found = false;
        let mut i: usize = 0;
        while i < paths.len()
            invariant
                0 <= i <= paths.len(),
                second == strings_view(paths@),
                found == exists|j: int| 0 <= j < i && second[j] == p@,
            decreases paths.len() - i,
        {
            assert(second[i as int] == paths@[i as int]@);
            if paths[i] == p {
                found = true;
            }
            i = i + 1;
        }
        if !found {
            paths.push(p);
            assert(strings_view(paths@) =~= second.push(p@));
        }
    }
    paths
}

/// The user's home directory (`dirs::home_dir`), as a string.
#[verifier::external_body]
fn home_dir() -> (r: Option<String>) {
    dirs::home_dir().map(|p| p.to_string_lossy().into_owned())
}

/// The platform's configuration directory (`dirs::config_dir`), as a string.
#[verifier::external_body]
fn config_dir() -> (r: Option<String>) {
    dirs::config_dir().map(|p| p.to_string_lossy().into_owned())
}

} // verus!
