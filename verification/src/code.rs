//! Source code as coloured markup.

use syntect::easy::HighlightLines;
use syntect::highlighting::ThemeSet;
use syntect::parsing::SyntaxSet;
use vstd::prelude::*;

use crate::hits;
use crate::hits::SizingPreference;
use crate::model::Hit;
use crate::paths;
use crate::text;

verus! {

/// Greatest number of bytes that are shown.
pub const DISPLAY_CAP_BYTES: usize = 51200;

/// The theme where none, or an unknown one, is configured.
pub const DEFAULT_THEME: &'static str = "Solarized (dark)";

/// The name of the syntax that colours nothing.
pub const PLAIN_TEXT: &'static str = "Plain Text";

/// Whether a lowercase extension is that of source code.
pub open spec fn code_extension(e: Seq<char>) -> bool {
    e == "rs"@ || e == "py"@ || e == "js"@ || e == "ts"@ || e == "jsx"@ || e == "tsx"@
        || e == "go"@ || e == "c"@ || e == "cc"@ || e == "cpp"@ || e == "cxx"@ || e == "h"@
        || e == "hh"@ || e == "hpp"@ || e == "hxx"@ || e == "java"@ || e == "kt"@
        || e == "rb"@ || e == "sh"@ || e == "bash"@ || e == "zsh"@ || e == "fish"@
        || e == "toml"@ || e == "yaml"@ || e == "yml"@ || e == "json"@ || e == "xml"@
        || e == "html"@ || e == "htm"@ || e == "css"@ || e == "scss"@ || e == "sass"@
        || e == "sql"@ || e == "lua"@ || e == "pl"@ || e == "pm"@ || e == "swift"@
        || e == "zig"@ || e == "nim"@ || e == "hs"@ || e == "ml"@ || e == "mli"@
        || e == "scala"@ || e == "clj"@ || e == "cljs"@ || e == "ex"@ || e == "exs"@
        || e == "erl"@ || e == "dart"@ || e == "md"@ || e == "markdown"@ || e == "vim"@
        || e == "r"@ || e == "php"@ || e == "cs"@ || e == "fs"@ || e == "fsx"@
}

/// Whether a lowercase extension is that of source code.
pub fn is_code_extension(e: &str) -> (r: bool)
    ensures
        r == code_extension(e@),
{
    text::text_eq(e, "rs") || text::text_eq(e, "py") || text::text_eq(e, "js")
        || text::text_eq(e, "ts") || text::text_eq(e, "jsx") || text::text_eq(e, "tsx")
        || text::text_eq(e, "go") || text::text_eq(e, "c") || text::text_eq(e, "cc")
        || text::text_eq(e, "cpp") || text::text_eq(e, "cxx") || text::text_eq(e, "h")
        || text::text_eq(e, "hh") || text::text_eq(e, "hpp") || text::text_eq(e, "hxx")
        || text::text_eq(e, "java") || text::text_eq(e, "kt") || text::text_eq(e, "rb")
        || text::text_eq(e, "sh") || text::text_eq(e, "bash") || text::text_eq(e, "zsh")
        || text::text_eq(e, "fish") || text::text_eq(e, "toml") || text::text_eq(e, "yaml")
        || text::text_eq(e, "yml") || text::text_eq(e, "json") || text::text_eq(e, "xml")
        || text::text_eq(e, "html") || text::text_eq(e, "htm") || text::text_eq(e, "css")
        || text::text_eq(e, "scss") || text::text_eq(e, "sass") || text::text_eq(e, "sql")
        || text::text_eq(e, "lua") || text::text_eq(e, "pl") || text::text_eq(e, "pm")
        || text::text_eq(e, "swift") || text::text_eq(e, "zig") || text::text_eq(e, "nim")
        || text::text_eq(e, "hs") || text::text_eq(e, "ml") || text::text_eq(e, "mli")
        || text::text_eq(e, "scala") || text::text_eq(e, "clj") || text::text_eq(e, "cljs")
        || text::text_eq(e, "ex") || text::text_eq(e, "exs") || text::text_eq(e, "erl")
        || text::text_eq(e, "dart") || text::text_eq(e, "md") || text::text_eq(e, "markdown")
        || text::text_eq(e, "vim") || text::text_eq(e, "r") || text::text_eq(e, "php")
        || text::text_eq(e, "cs") || text::text_eq(e, "fs") || text::text_eq(e, "fsx")
}

/// Shows source code.
pub struct CodePreview;

/// How well source code suits a hit.
pub open spec fn score(hit: Hit) -> u32 {
    match hits::action_path(hit.action) {
        Some(p) => match paths::lower_extension_of(p) {
            Some(e) if code_extension(e) => 70,
            _ => 0,
        },
        None => 0,
    }
}

impl CodePreview {
    /// The name of the preview.
    pub fn id(&self) -> (r: &'static str)
        ensures
            r@ == "code"@,
    {
        "code"
    }

    /// How well the preview suits a hit.
    pub fn match_score(&self, hit: &Hit) -> (r: u32)
        ensures
            r == score(*hit),
    {
        match hits::file_path(hit) {
            Some(path) => match paths::lower_extension(path.as_str()) {
                Some(e) => {
                    if is_code_extension(e.as_str()) {
                        70
                    } else {
                        0
                    }
                },
                None => 0,
            },
            None => 0,
        }
    }

    /// How the window is sized.
    pub fn sizing(&self) -> (r: SizingPreference)
        ensures
            r == SizingPreference::FitToContent,
    {
        SizingPreference::FitToContent
    }
}

// ---------------------------------------------------------------------
// Text
// ---------------------------------------------------------------------

/// What `String::from_utf8_lossy` makes of bytes.
pub uninterp spec fn lossy_text(bytes: Seq<u8>) -> Seq<char>;

/// `String::from_utf8_lossy`: the text of bytes, with replacement
/// characters for what is no text. Bytes that are a text throughout give
/// that text.
#[verifier::external_body]
fn from_utf8_lossy(bytes: &[u8]) -> (r: String)
    ensures
        r@ == lossy_text(bytes@),
        vstd::utf8::valid_utf8(bytes@) ==> r@ == vstd::utf8::decode_utf8(bytes@),
{
    String::from_utf8_lossy(bytes).into_owned()
}

/// The part of a file that is shown.
pub open spec fn shown_part(read: Seq<u8>) -> Seq<u8> {
    if read.len() > DISPLAY_CAP_BYTES {
        read.take(DISPLAY_CAP_BYTES as int)
    } else {
        read
    }
}

/// The text of the part of a file that is shown, and whether the file goes
/// on. `read` is what was read from the start of the file: the whole of it,
/// or more than [`DISPLAY_CAP_BYTES`] bytes.
pub fn read_capped(read: &[u8]) -> (r: (String, bool))
    ensures
        r.0@ == lossy_text(shown_part(read@)),
        vstd::utf8::valid_utf8(shown_part(read@)) ==> r.0@ == vstd::utf8::decode_utf8(
            shown_part(read@),
        ),
        r.1 == (read@.len() > DISPLAY_CAP_BYTES),
{
    let part: &[u8] = if read.len() > DISPLAY_CAP_BYTES {
        vstd::slice::slice_subrange(read, 0, DISPLAY_CAP_BYTES)
    } else {
        read
    };
    proof {
        assert(part@ =~= shown_part(read@));
    }
    (from_utf8_lossy(part), read.len() > DISPLAY_CAP_BYTES)
}

/// The lines of a text, each with the line feed that ends it.
pub open spec fn lines_with_endings(s: Seq<char>) -> Seq<Seq<char>>
    decreases s.len(),
{
    if s.len() == 0 {
        Seq::empty()
    } else {
        let before = lines_with_endings(s.drop_last());
        if before.len() > 0 && before.last().last() != '\n' {
            before.drop_last().push(before.last().push(s.last()))
        } else {
            before.push(seq![s.last()])
        }
    }
}

proof fn lemma_lines_shape(s: Seq<char>)
    ensures
        s.len() > 0 ==> {
            let ls = lines_with_endings(s);
            ls.len() > 0 && ls.last().len() > 0 && ls.last().last() == s.last()
        },
    decreases s.len(),
{
    if s.len() > 0 {
        lemma_lines_shape(s.drop_last());
    }
}

fn split_lines(s: &[char]) -> (r: Vec<Vec<char>>)
    ensures
        text::texts(r@) == lines_with_endings(s@),
{
    let mut done: Vec<Vec<char>> = Vec::new();
    let mut line: Vec<char> = Vec::new();
    let mut i: usize = 0;
    proof {
        assert(text::texts(done@) =~= lines_with_endings(s@.take(0)));
    }
    while i < s.len()
        invariant
            i <= s@.len(),
            lines_with_endings(s@.take(i as int)) == (if line@.len() == 0 {
                text::texts(done@)
            } else {
                text::texts(done@).push(line@)
            }),
            line@.len() > 0 ==> line@.last() != '\n',
            line@.len() == 0 && i > 0 ==> s@[i - 1] == '\n',
        decreases s@.len() - i,
    {
        let c: char = s[i];
        let ghost held = line@;
        let ghost before = text::texts(done@);
        proof {
            assert(s@.take(i + 1).drop_last() =~= s@.take(i as int));
            assert(s@.take(i + 1).last() == c);
            if i > 0 {
                lemma_lines_shape(s@.take(i as int));
                assert(s@.take(i as int).last() == s@[i - 1]);
            }
            assert(before.push(held).drop_last() =~= before);
        }
        line.push(c);
        let ghost grown = line@;
        proof {
            if held.len() == 0 {
                assert(grown =~= seq![c]);
            }
            assert(lines_with_endings(s@.take(i + 1)) == before.push(grown));
        }
        if c == '\n' {
            done.push(line);
            line = Vec::new();
            proof {
                assert(text::texts(done@) =~= before.push(grown));
            }
        }
        i = i + 1;
    }
    proof {
        assert(s@.take(s@.len() as int) =~= s@);
    }
    if line.len() > 0 {
        let ghost before = text::texts(done@);
        let ghost held = line@;
        done.push(line);
        proof {
            assert(text::texts(done@) =~= before.push(held));
        }
    }
    done
}

/// The first line of a text, without what ends it.
pub open spec fn first_line(s: Seq<char>) -> Seq<char>
    decreases s.len(),
{
    if s.len() == 0 || s[0] == '\n' || (s.len() >= 2 && s[0] == '\r' && s[1] == '\n') {
        Seq::empty()
    } else {
        seq![s[0]] + first_line(s.drop_first())
    }
}

fn first_line_of(s: &[char]) -> (r: Vec<char>)
    ensures
        r@ == first_line(s@),
{
    let mut out: Vec<char> = Vec::new();
    let mut i: usize = 0;
    proof {
        assert(s@.skip(0) =~= s@);
        assert(first_line(s@) =~= out@ + first_line(s@.skip(0)));
    }
    while i < s.len() && s[i] != '\n' && !(s.len() - i >= 2 && s[i] == '\r' && s[i + 1] == '\n')
        invariant
            i <= s@.len(),
            first_line(s@) == out@ + first_line(s@.skip(i as int)),
        decreases s@.len() - i,
    {
        proof {
            let rest = s@.skip(i as int);
            assert(rest[0] == s@[i as int]);
            if rest.len() >= 2 {
                assert(rest[1] == s@[i + 1]);
            }
            assert(rest.drop_first() =~= s@.skip(i + 1));
            assert(out@ + (seq![s@[i as int]] + first_line(s@.skip(i + 1))) =~= out@.push(
                s@[i as int],
            ) + first_line(s@.skip(i + 1)));
        }
        out.push(s[i]);
        i = i + 1;
    }
    proof {
        let rest = s@.skip(i as int);
        if i < s@.len() {
            assert(rest[0] == s@[i as int]);
            if rest.len() >= 2 {
                assert(rest[1] == s@[i + 1]);
            }
        }
        assert(first_line(rest) =~= Seq::<char>::empty());
        assert(out@ + Seq::<char>::empty() =~= out@);
    }
    out
}

/// A character as it stands in markup.
pub open spec fn escaped_char(c: char) -> Seq<char> {
    if c == '&' {
        "&amp;"@
    } else if c == '<' {
        "&lt;"@
    } else if c == '>' {
        "&gt;"@
    } else if c == '\'' {
        "&#39;"@
    } else if c == '"' {
        "&quot;"@
    } else {
        seq![c]
    }
}

/// A text as it stands in markup.
pub open spec fn escaped(s: Seq<char>) -> Seq<char>
    decreases s.len(),
{
    if s.len() == 0 {
        Seq::empty()
    } else {
        escaped(s.drop_last()) + escaped_char(s.last())
    }
}

/// A text as it stands in markup.
pub fn escape_pango(s: &str) -> (r: String)
    ensures
        r@ == escaped(s@),
{
    let chars = text::to_chars(s);
    let mut out = String::new();
    let mut i: usize = 0;
    proof {
        assert(out@ =~= escaped(chars@.take(0)));
    }
    while i < chars.len()
        invariant
            i <= chars@.len(),
            out@ == escaped(chars@.take(i as int)),
        decreases chars@.len() - i,
    {
        let c: char = chars[i];
        proof {
            assert(chars@.take(i + 1).drop_last() =~= chars@.take(i as int));
            assert(chars@.take(i + 1).last() == c);
        }
        let ghost before = out@;
        if c == '&' {
            out.push_str("&amp;");
        } else if c == '<' {
            out.push_str("&lt;");
        } else if c == '>' {
            out.push_str("&gt;");
        } else if c == '\'' {
            out.push_str("&#39;");
        } else if c == '"' {
            out.push_str("&quot;");
        } else {
            out.push(c);
        }
        proof {
            assert(out@ =~= before + escaped_char(c));
        }
        i = i + 1;
    }
    proof {
        assert(chars@.take(chars@.len() as int) =~= chars@);
    }
    out
}

// ---------------------------------------------------------------------
// Colours
// ---------------------------------------------------------------------

/// A set of syntaxes.
#[verifier::external_type_specification]
#[verifier::external_body]
pub struct ExSyntaxSet(syntect::parsing::SyntaxSet);

/// A set of themes.
#[verifier::external_type_specification]
#[verifier::external_body]
pub struct ExThemeSet(syntect::highlighting::ThemeSet);

/// A highlighter in the middle of a text.
#[verifier::external_type_specification]
#[verifier::external_body]
pub struct ExHighlightLines<'a>(syntect::easy::HighlightLines<'a>);

/// The syntaxes and themes that come with the highlighter, and no others.
pub struct Bundle {
    syntaxes: SyntaxSet,
    themes: ThemeSet,
}

/// A stretch of text and its colour.
#[derive(Clone, Debug, PartialEq, Eq)]
pub struct Region {
    pub red: u8,
    pub green: u8,
    pub blue: u8,
    pub text: String,
}

/// A stretch of text and its colour, as plain values.
pub struct RegionView {
    pub red: u8,
    pub green: u8,
    pub blue: u8,
    pub text: Seq<char>,
}

impl View for Region {
    type V = RegionView;

    open spec fn view(&self) -> RegionView {
        RegionView { red: self.red, green: self.green, blue: self.blue, text: self.text@ }
    }
}

/// Regions as plain values.
pub open spec fn region_views(v: Seq<Region>) -> Seq<RegionView> {
    Seq::new(v.len(), |i: int| v[i]@)
}

/// What highlighting a line gave, as plain values.
pub open spec fn line_view(r: Result<Vec<Region>, String>) -> Result<Seq<RegionView>, Seq<char>> {
    match r {
        Ok(v) => Ok(region_views(v@)),
        Err(e) => Err(e@),
    }
}

/// Whether there is a bundled theme of this name.
pub open spec fn bundled_theme(name: Seq<char>) -> bool {
    name == "base16-ocean.dark"@ || name == "base16-eighties.dark"@ || name
        == "base16-mocha.dark"@ || name == "base16-ocean.light"@ || name == "InspiredGitHub"@
        || name == "Solarized (dark)"@ || name == "Solarized (light)"@
}

/// Whether there is a bundled syntax of this name.
pub uninterp spec fn bundled_syntax(name: Seq<char>) -> bool;

/// The name of the bundled syntax for an extension.
pub uninterp spec fn syntax_by_extension(extension: Seq<char>) -> Option<Seq<char>>;

/// The name of the bundled syntax that a first line tells.
pub uninterp spec fn syntax_by_first_line(line: Seq<char>) -> Option<Seq<char>>;

/// The lines that a highlighter has seen.
pub uninterp spec fn seen(h: HighlightLines<'_>) -> Seq<Seq<char>>;

/// The names of the syntax and of the theme of a highlighter.
pub uninterp spec fn colouring(h: HighlightLines<'_>) -> (Seq<char>, Seq<char>);

/// What a highlighter with this syntax and theme makes of a line, after the
/// lines that came before.
pub uninterp spec fn coloured(
    syntax: Seq<char>,
    theme: Seq<char>,
    before: Seq<Seq<char>>,
    line: Seq<char>,
) -> Result<Seq<RegionView>, Seq<char>>;

/// An optional text.
pub open spec fn opt_text(o: Option<String>) -> Option<Seq<char>> {
    match o {
        Some(s) => Some(s@),
        None => None,
    }
}

/// Whether a set holds the bundled syntaxes, as
/// `SyntaxSet::load_defaults_newlines` gives them.
pub uninterp spec fn default_syntaxes(s: SyntaxSet) -> bool;

/// Whether a set holds the bundled themes, as `ThemeSet::load_defaults`
/// gives them.
pub uninterp spec fn default_themes(t: ThemeSet) -> bool;

/// `syntect::parsing::SyntaxSet::load_defaults_newlines`: the bundled
/// syntaxes. What they make of a text is stated where they are asked.
#[verifier::external_body]
fn load_syntaxes() -> (r: SyntaxSet)
    ensures
        default_syntaxes(r),
{
    SyntaxSet::load_defaults_newlines()
}

/// `syntect::highlighting::ThemeSet::load_defaults`: the bundled themes.
/// What they make of a text is stated where they are asked.
#[verifier::external_body]
fn load_themes() -> (r: ThemeSet)
    ensures
        default_themes(r),
{
    ThemeSet::load_defaults()
}

impl Bundle {
    /// Whether the bundle holds the bundled syntaxes and themes.
    #[verifier::type_invariant]
    pub closed spec fn loaded(&self) -> bool {
        default_syntaxes(self.syntaxes) && default_themes(self.themes)
    }

    /// The bundled syntaxes and themes. There is no other way to make a
    /// bundle.
    pub fn load() -> (r: Bundle)
        ensures
            r.loaded(),
    {
        Bundle { syntaxes: load_syntaxes(), themes: load_themes() }
    }
}

/// `syntect::parsing::SyntaxSet::find_syntax_by_extension` on the bundled
/// syntaxes: the name of the syntax.
#[verifier::external_body]
fn find_by_extension(bundle: &Bundle, extension: &str) -> (r: Option<String>)
    requires
        bundle.loaded(),
    ensures
        opt_text(r) == syntax_by_extension(extension@),
        r matches Some(s) ==> bundled_syntax(s@),
{
    bundle.syntaxes.find_syntax_by_extension(extension).map(|s| s.name.clone())
}

/// `syntect::parsing::SyntaxSet::find_syntax_by_first_line` on the bundled
/// syntaxes: the name of the syntax.
#[verifier::external_body]
fn find_by_first_line(bundle: &Bundle, line: &str) -> (r: Option<String>)
    requires
        bundle.loaded(),
    ensures
        opt_text(r) == syntax_by_first_line(line@),
        r matches Some(s) ==> bundled_syntax(s@),
{
    bundle.syntaxes.find_syntax_by_first_line(line).map(|s| s.name.clone())
}

/// `syntect::parsing::SyntaxSet::find_syntax_plain_text` on the bundled
/// syntaxes: the name of the syntax.
#[verifier::external_body]
fn find_plain_text(bundle: &Bundle) -> (r: String)
    requires
        bundle.loaded(),
    ensures
        r@ == PLAIN_TEXT@,
        bundled_syntax(r@),
{
    bundle.syntaxes.find_syntax_plain_text().name.clone()
}

/// `contains_key` on `syntect::highlighting::ThemeSet::themes`: whether
/// there is a bundled theme of this name.
#[verifier::external_body]
fn has_theme(bundle: &Bundle, name: &str) -> (r: bool)
    requires
        bundle.loaded(),
    ensures
        r == bundled_theme(name@),
{
    bundle.themes.themes.contains_key(name)
}

/// `syntect::easy::HighlightLines::new` with a bundled syntax and theme,
/// each found by its name.
#[verifier::external_body]
fn start<'a>(bundle: &'a Bundle, syntax: &str, theme: &str) -> (r: HighlightLines<'a>)
    requires
        bundle.loaded(),
        bundled_syntax(syntax@),
        bundled_theme(theme@),
    ensures
        seen(r) == Seq::<Seq<char>>::empty(),
        colouring(r) == (syntax@, theme@),
{
    HighlightLines::new(
        bundle.syntaxes.find_syntax_by_name(syntax).unwrap(),
        &bundle.themes.themes[theme],
    )
}

/// `syntect::easy::HighlightLines::highlight_line`: the colours of a line,
/// after those that the highlighter has seen.
#[verifier::external_body]
fn highlight_line(bundle: &Bundle, h: &mut HighlightLines<'_>, line: &str) -> (r: Result<
    Vec<Region>,
    String,
>)
    requires
        bundle.loaded(),
    ensures
        line_view(r) == coloured(colouring(*old(h)).0, colouring(*old(h)).1, seen(*old(h)), line@),
        seen(*final(h)) == seen(*old(h)).push(line@),
        colouring(*final(h)) == colouring(*old(h)),
{
    match h.highlight_line(line, &bundle.syntaxes) {
        Ok(regions) => Ok(regions.into_iter().map(|(style, text)| Region {
            red: style.foreground.r,
            green: style.foreground.g,
            blue: style.foreground.b,
            text: text.to_string(),
        }).collect()),
        Err(e) => Err(e.to_string()),
    }
}

/// The syntax for a file: by its extension, or else by its first line, or
/// else none.
pub open spec fn picked(path: Seq<char>, body: Seq<char>) -> Seq<char> {
    let by_extension = match paths::lower_extension_of(path) {
        Some(e) => syntax_by_extension(e),
        None => None,
    };
    match by_extension {
        Some(name) => name,
        None => if body.len() == 0 {
            PLAIN_TEXT@
        } else {
            match syntax_by_first_line(first_line(body)) {
                Some(name) => name,
                None => PLAIN_TEXT@,
            }
        },
    }
}

/// The syntax for a file.
pub fn pick_syntax(bundle: &Bundle, path: &str, body: &str) -> (r: String)
    ensures
        r@ == picked(path@, body@),
        bundled_syntax(r@),
{
    proof {
        use_type_invariant(bundle);
    }
    match paths::lower_extension(path) {
        Some(e) => {
            match find_by_extension(bundle, e.as_str()) {
                Some(name) => {
                    return name;
                },
                None => {},
            }
        },
        None => {},
    }
    let chars = text::to_chars(body);
    if chars.len() > 0 {
        let line = text::from_chars(&first_line_of(&chars));
        match find_by_first_line(bundle, line.as_str()) {
            Some(name) => {
                return name;
            },
            None => {},
        }
    }
    find_plain_text(bundle)
}

/// The theme: the configured one, if there is such a theme.
pub open spec fn theme_of(requested: Option<Seq<char>>) -> Seq<char> {
    match requested {
        Some(name) if bundled_theme(name) => name,
        _ => DEFAULT_THEME@,
    }
}

/// The theme: the configured one, if there is such a theme.
pub fn resolve_theme_name(bundle: &Bundle, requested: Option<String>) -> (r: String)
    ensures
        r@ == theme_of(opt_text(requested)),
        bundled_theme(r@),
{
    proof {
        use_type_invariant(bundle);
    }
    match requested {
        Some(name) => {
            if has_theme(bundle, name.as_str()) {
                name
            } else {
                DEFAULT_THEME.to_string()
            }
        },
        None => DEFAULT_THEME.to_string(),
    }
}

/// Two hexadecimal digits.
pub open spec fn hex_byte(b: u8) -> Seq<char> {
    seq![text::hex_digit((b / 16) as int), text::hex_digit((b % 16) as int)]
}

/// A region as markup.
pub open spec fn region_markup(r: RegionView) -> Seq<char> {
    "<span foreground=\"#"@ + hex_byte(r.red) + hex_byte(r.green) + hex_byte(r.blue) + "\">"@
        + escaped(r.text) + "</span>"@
}

/// The first `n` regions as markup.
pub open spec fn regions_markup(rs: Seq<RegionView>, n: int) -> Seq<char>
    decreases n,
{
    if n <= 0 {
        Seq::empty()
    } else {
        regions_markup(rs, n - 1) + region_markup(rs[n - 1])
    }
}

/// The first `n` lines of a text as markup, or the message of the line that
/// cannot be coloured.
pub open spec fn lines_markup(
    syntax: Seq<char>,
    theme: Seq<char>,
    lines: Seq<Seq<char>>,
    n: int,
) -> Result<Seq<char>, Seq<char>>
    decreases n,
{
    if n <= 0 {
        Ok(Seq::empty())
    } else {
        match lines_markup(syntax, theme, lines, n - 1) {
            Err(e) => Err(e),
            Ok(m) => match coloured(syntax, theme, lines.take(n - 1), lines[n - 1]) {
                Ok(rs) => Ok(m + regions_markup(rs, rs.len() as int)),
                Err(e) => Err(e),
            },
        }
    }
}

fn push_hex(out: &mut String, b: u8)
    ensures
        final(out)@ == old(out)@ + hex_byte(b),
{
    let ghost before = out@;
    out.push(text::hex_char(b / 16));
    out.push(text::hex_char(b % 16));
    proof {
        assert(out@ =~= before + hex_byte(b));
    }
}

/// Appends the regions of a line as markup.
pub fn push_regions(out: &mut String, regions: &Vec<Region>)
    ensures
        final(out)@ == old(out)@ + regions_markup(
            region_views(regions@),
            regions@.len() as int,
        ),
{
    let ghost all = region_views(regions@);
    let ghost before = out@;
    let mut i: usize = 0;
    proof {
        assert(out@ =~= before + regions_markup(all, 0));
    }
    while i < regions.len()
        invariant
            i <= regions@.len(),
            all == region_views(regions@),
            out@ == before + regions_markup(all, i as int),
        decreases regions@.len() - i,
    {
        let ghost held = out@;
        let region = &regions[i];
        out.push_str("<span foreground=\"#");
        push_hex(out, region.red);
        push_hex(out, region.green);
        push_hex(out, region.blue);
        out.push_str("\">");
        out.push_str(escape_pango(region.text.as_str()).as_str());
        out.push_str("</span>");
        proof {
            assert(all[i as int] == region@);
            assert(out@ =~= held + region_markup(region@));
            assert(out@ =~= before + regions_markup(all, i + 1));
        }
        i = i + 1;
    }
}

/// What rendering gave, as plain values.
pub open spec fn markup_view(r: Result<String, String>) -> Result<Seq<char>, Seq<char>> {
    match r {
        Ok(s) => Ok(s@),
        Err(e) => Err(e@),
    }
}

proof fn lemma_fault_stays(
    syntax: Seq<char>,
    theme: Seq<char>,
    lines: Seq<Seq<char>>,
    i: int,
    n: int,
)
    requires
        0 <= i <= n,
        lines_markup(syntax, theme, lines, i) is Err,
    ensures
        lines_markup(syntax, theme, lines, n) == lines_markup(syntax, theme, lines, i),
    decreases n,
{
    if i < n {
        lemma_fault_stays(syntax, theme, lines, i, n - 1);
    }
}

/// A text as coloured markup, or the message why it cannot be coloured.
pub fn render_pango_markup(bundle: &Bundle, body: &str, syntax: &str, theme: &str) -> (r: Result<
    String,
    String,
>)
    requires
        bundled_syntax(syntax@),
        bundled_theme(theme@),
    ensures
        markup_view(r) == lines_markup(
            syntax@,
            theme@,
            lines_with_endings(body@),
            lines_with_endings(body@).len() as int,
        ),
{
    proof {
        use_type_invariant(bundle);
    }
    let lines = split_lines(&text::to_chars(body));
    let ghost all = lines_with_endings(body@);
    let mut h = start(bundle, syntax, theme);
    let mut out = String::new();
    let mut i: usize = 0;
    proof {
        assert(seen(h) =~= all.take(0));
        assert(out@ =~= Seq::<char>::empty());
    }
    while i < lines.len()
        invariant
            bundle.loaded(),
            i <= lines@.len(),
            text::texts(lines@) == all,
            all == lines_with_endings(body@),
            seen(h) == all.take(i as int),
            colouring(h) == (syntax@, theme@),
            lines_markup(syntax@, theme@, all, i as int) == Ok::<Seq<char>, Seq<char>>(out@),
        decreases lines@.len() - i,
    {
        let line = text::from_chars(&lines[i]);
        proof {
            assert(all[i as int] == lines@[i as int]@);
            assert(all.take(i + 1) =~= all.take(i as int).push(all[i as int]));
        }
        match highlight_line(bundle, &mut h, line.as_str()) {
            Ok(regions) => {
                push_regions(&mut out, &regions);
            },
            Err(e) => {
                proof {
                    lemma_fault_stays(syntax@, theme@, all, i + 1, all.len() as int);
                }
                return Err(e);
            },
        }
        i = i + 1;
    }
    Ok(out)
}

/// The note below a text that was cut short.
pub const TRUNCATION_NOTE: &'static str = "\n\n<i>… [truncated at 50 KiB for preview]</i>\n";

/// The markup that is shown: the coloured text, or the plain one where it
/// cannot be coloured, and a note where it was cut short.
pub open spec fn shown_markup(
    rendered: Result<Seq<char>, Seq<char>>,
    body: Seq<char>,
    truncated: bool,
) -> Seq<char> {
    let m = match rendered {
        Ok(m) => m,
        Err(_) => escaped(body),
    };
    if truncated {
        m + TRUNCATION_NOTE@
    } else {
        m
    }
}

/// The markup that is shown.
pub fn finish_markup(rendered: Result<String, String>, body: &str, truncated: bool) -> (r: String)
    ensures
        r@ == shown_markup(markup_view(rendered), body@, truncated),
{
    let mut m = match rendered {
        Ok(m) => m,
        Err(_) => escape_pango(body),
    };
    if truncated {
        m.push_str(TRUNCATION_NOTE);
    }
    m
}

/// The markup for a file. `read` is what was read from its start, as
/// [`read_capped`] takes it, `theme` the configured theme.
pub fn build(path: &str, read: &[u8], theme: Option<String>) -> (r: String)
    ensures
        ({
            let body = lossy_text(shown_part(read@));
            let lines = lines_with_endings(body);
            r@ == shown_markup(
                lines_markup(
                    picked(path@, body),
                    theme_of(opt_text(theme)),
                    lines,
                    lines.len() as int,
                ),
                body,
                read@.len() > DISPLAY_CAP_BYTES,
            )
        }),
{
    let (body, truncated) = read_capped(read);
    let bundle = Bundle::load();
    let theme = resolve_theme_name(&bundle, theme);
    let syntax = pick_syntax(&bundle, path, body.as_str());
    let rendered = render_pango_markup(&bundle, body.as_str(), syntax.as_str(), theme.as_str());
    finish_markup(rendered, body.as_str(), truncated)
}

/// Law: text in markup holds no character that markup gives a meaning,
/// but for the ampersands that begin references.
pub proof fn law_escaped_text_is_inert(s: Seq<char>)
    ensures
        forall|i: int|
            0 <= i < escaped(s).len() ==> {
                let c = #[trigger] escaped(s)[i];
                c != '<' && c != '>' && c != '"' && c != '\''
            },
    decreases s.len(),
{
    reveal_strlit("&amp;");
    reveal_strlit("&lt;");
    reveal_strlit("&gt;");
    reveal_strlit("&#39;");
    reveal_strlit("&quot;");
    if s.len() > 0 {
        law_escaped_text_is_inert(s.drop_last());
        let before = escaped(s.drop_last());
        let last = escaped_char(s.last());
        assert forall|i: int| 0 <= i < escaped(s).len() implies {
            let c = #[trigger] escaped(s)[i];
            c != '<' && c != '>' && c != '"' && c != '\''
        } by {
            if i < before.len() {
                assert(escaped(s)[i] == before[i]);
            } else {
                assert(escaped(s)[i] == last[i - before.len()]);
            }
        }
    }
}

/// Law: escaping is done character by character; the five special
/// characters are written as their entities and all others as they are.
pub proof fn law_escaping_is_by_character(a: Seq<char>, b: Seq<char>, c: char)
    ensures
        escaped(a + b) == escaped(a) + escaped(b),
        escaped(seq!['&']) == "&amp;"@,
        escaped(seq!['<']) == "&lt;"@,
        escaped(seq!['>']) == "&gt;"@,
        escaped(seq!['\'']) == "&#39;"@,
        escaped(seq!['"']) == "&quot;"@,
        c != '&' && c != '<' && c != '>' && c != '\'' && c != '"' ==> escaped(seq![c]) == seq![c],
    decreases b.len(),
{
    lemma_escaped_one('&');
    lemma_escaped_one('<');
    lemma_escaped_one('>');
    lemma_escaped_one('\'');
    lemma_escaped_one('"');
    lemma_escaped_one(c);
    if b.len() == 0 {
        assert(a + b =~= a);
        assert(escaped(a) + escaped(b) =~= escaped(a));
    } else {
        law_escaping_is_by_character(a, b.drop_last(), c);
        assert((a + b).drop_last() =~= a + b.drop_last());
        assert(escaped(a + b) =~= escaped(a) + escaped(b));
    }
}

proof fn lemma_escaped_one(c: char)
    ensures
        escaped(seq![c]) == escaped_char(c),
{
    assert(seq![c].drop_last() =~= Seq::<char>::empty());
    assert(escaped(Seq::<char>::empty()) =~= Seq::<char>::empty());
    assert(escaped(seq![c]) =~= escaped_char(c));
}

/// Law: the lines of a text give it back; none is empty, and a line feed
/// stands at the end of a line or nowhere.
pub proof fn law_lines_give_the_text_back(s: Seq<char>)
    ensures
        text::joined(lines_with_endings(s), Seq::empty()) == s,
        forall|k: int|
            0 <= k < lines_with_endings(s).len() ==> (#[trigger] lines_with_endings(s)[k]).len()
                > 0 && !lines_with_endings(s)[k].drop_last().contains('\n'),
        forall|k: int|
            0 <= k < lines_with_endings(s).len() - 1 ==> (
            #[trigger] lines_with_endings(s)[k]).last() == '\n',
        s.len() > 0 ==> lines_with_endings(s).len() > 0 && lines_with_endings(s).last().last()
            == s.last(),
    decreases s.len(),
{
    if s.len() > 0 {
        law_lines_give_the_text_back(s.drop_last());
        let before = lines_with_endings(s.drop_last());
        let now = lines_with_endings(s);
        assert(s.drop_last().push(s.last()) =~= s);
        if before.len() > 0 && before.last().last() != '\n' {
            assert(now.drop_last() =~= before.drop_last());
            let grown = before.last().push(s.last());
            assert(now.last() == grown);
            assert(grown.drop_last() =~= before.last());
            assert(!before.last().contains('\n')) by {
                if before.last().contains('\n') {
                    let j = choose|j: int|
                        0 <= j < before.last().len() && before.last()[j] == '\n';
                    assert(before.last().drop_last()[j] == '\n');
                }
            }
            if before.len() == 1 {
                assert(text::joined(now, Seq::empty()) =~= s);
            } else {
                assert(text::joined(now, Seq::empty()) =~= text::joined(
                    before,
                    Seq::empty(),
                ).push(s.last()));
            }
            assert forall|k: int| 0 <= k < now.len() implies (#[trigger] now[k]).len() > 0
                && !now[k].drop_last().contains('\n') by {
                if k < now.len() - 1 {
                    assert(now[k] == before[k]);
                }
            }
            assert forall|k: int| 0 <= k < now.len() - 1 implies (#[trigger] now[k]).last()
                == '\n' by {
                assert(now[k] == before[k]);
            }
        } else {
            assert(now.drop_last() =~= before);
            assert(now.last() =~= seq![s.last()]);
            assert(seq![s.last()].drop_last() =~= Seq::empty());
            if before.len() == 0 {
                assert(s.drop_last() =~= Seq::empty());
                assert(text::joined(now, Seq::empty()) =~= s);
            } else {
                assert(text::joined(now, Seq::empty()) =~= s);
            }
            assert forall|k: int| 0 <= k < now.len() implies (#[trigger] now[k]).len() > 0
                && !now[k].drop_last().contains('\n') by {
                if k < now.len() - 1 {
                    assert(now[k] == before[k]);
                }
            }
            assert forall|k: int| 0 <= k < now.len() - 1 implies (#[trigger] now[k]).last()
                == '\n' by {
                assert(now[k] == before[k]);
            }
        }
    }
}

/// Law: the first line of a text is its beginning, up to a line feed, with
/// or without a carriage return, or to the end.
pub proof fn law_the_first_line_is_the_beginning(s: Seq<char>)
    ensures
        first_line(s).is_prefix_of(s),
        !first_line(s).contains('\n'),
        ({
            let n = first_line(s).len() as int;
            ||| n == s.len()
            ||| s[n] == '\n'
            ||| n + 1 < s.len() && s[n] == '\r' && s[n + 1] == '\n'
        }),
    decreases s.len(),
{
    if s.len() == 0 || s[0] == '\n' || (s.len() >= 2 && s[0] == '\r' && s[1] == '\n') {
    } else {
        let rest = s.drop_first();
        law_the_first_line_is_the_beginning(rest);
        let f = first_line(s);
        let g = first_line(rest);
        assert(f =~= seq![s[0]] + g);
        assert(s.subrange(0, f.len() as int) =~= f) by {
            assert forall|i: int| 0 <= i < f.len() implies s[i] == f[i] by {
                if i > 0 {
                    assert(rest.subrange(0, g.len() as int)[i - 1] == g[i - 1]);
                }
            }
        }
        if f.contains('\n') {
            let j = choose|j: int| 0 <= j < f.len() && f[j] == '\n';
            assert(g[j - 1] == '\n');
        }
        let n = g.len() as int;
        if n < rest.len() {
            assert(rest[n] == s[n + 1]);
            if n + 1 < rest.len() {
                assert(rest[n + 1] == s[n + 2]);
            }
        }
    }
}

/// Law: the extension of a file decides how it is coloured; where it does
/// not tell, the first line does, and nothing is coloured where neither
/// does. A theme is the configured one if it exists, and exists in any case.
pub proof fn law_the_extension_decides_the_syntax(
    path: Seq<char>,
    body: Seq<char>,
    e: Seq<char>,
    name: Seq<char>,
)
    ensures
        paths::lower_extension_of(path) == Some(e) && syntax_by_extension(e) == Some(name)
            ==> picked(path, body) == name,
        (paths::lower_extension_of(path) is None || (paths::lower_extension_of(path) == Some(e)
            && syntax_by_extension(e) is None)) ==> {
            &&& body.len() > 0 && syntax_by_first_line(first_line(body)) == Some(name) ==> picked(
                path,
                body,
            ) == name
            &&& body.len() == 0 || syntax_by_first_line(first_line(body)) is None ==> picked(
                path,
                body,
            ) == "Plain Text"@
        },
        bundled_theme(name) ==> theme_of(Some(name)) == name,
        bundled_theme(theme_of(Some(name))),
        theme_of(None) == "Solarized (dark)"@,
{
}

/// The value of a hexadecimal digit.
pub open spec fn hex_value(c: char) -> int {
    if c <= '9' {
        c as int - '0' as int
    } else {
        c as int - 'a' as int + 10
    }
}

/// Law: coloured text is its stretches in turn. Each is written in its own
/// colour, of which every part is two hexadecimal digits, and holds its text,
/// escaped.
pub proof fn law_coloured_text_is_its_stretches(
    a: Seq<RegionView>,
    b: Seq<RegionView>,
    r: RegionView,
    v: u8,
)
    ensures
        regions_markup(a + b, (a + b).len() as int) == regions_markup(a, a.len() as int)
            + regions_markup(b, b.len() as int),
        regions_markup(seq![r], 1) == "<span foreground=\"#"@ + hex_byte(r.red) + hex_byte(r.green)
            + hex_byte(r.blue) + "\">"@ + escaped(r.text) + "</span>"@,
        hex_byte(v).len() == 2,
        16 * hex_value(hex_byte(v)[0]) + hex_value(hex_byte(v)[1]) == v,
{
    lemma_regions_of_two(a, b, b.len() as int);
    assert(regions_markup(seq![r], 0) =~= Seq::empty());
    assert(regions_markup(seq![r], 1) =~= region_markup(r));
}

proof fn lemma_regions_of_two(a: Seq<RegionView>, b: Seq<RegionView>, n: int)
    requires
        0 <= n <= b.len(),
    ensures
        regions_markup(a + b, a.len() + n) == regions_markup(a, a.len() as int) + regions_markup(
            b,
            n,
        ),
    decreases n,
{
    if n == 0 {
        lemma_regions_of_start(a, b, a.len() as int);
        assert(regions_markup(a, a.len() as int) + regions_markup(b, 0) =~= regions_markup(
            a,
            a.len() as int,
        ));
    } else {
        lemma_regions_of_two(a, b, n - 1);
        assert((a + b)[a.len() + n - 1] == b[n - 1]);
        assert(regions_markup(a + b, a.len() + n) =~= regions_markup(a, a.len() as int)
            + regions_markup(b, n));
    }
}

proof fn lemma_regions_of_start(a: Seq<RegionView>, b: Seq<RegionView>, n: int)
    requires
        0 <= n <= a.len(),
    ensures
        regions_markup(a + b, n) == regions_markup(a, n),
    decreases n,
{
    if n > 0 {
        lemma_regions_of_start(a, b, n - 1);
        assert((a + b)[n - 1] == a[n - 1]);
    }
}

/// Law: a text is coloured where each of its lines can be, each after those
/// ahead of it; its markup goes on with that of the next line.
pub proof fn law_a_text_is_coloured_line_by_line(
    syntax: Seq<char>,
    theme: Seq<char>,
    lines: Seq<Seq<char>>,
    n: int,
)
    requires
        0 <= n < lines.len(),
    ensures
        lines_markup(syntax, theme, lines, n + 1) is Ok <==> lines_markup(syntax, theme, lines, n)
            is Ok && coloured(syntax, theme, lines.take(n), lines[n]) is Ok,
        lines_markup(syntax, theme, lines, n) is Err ==> lines_markup(syntax, theme, lines, n + 1)
            == lines_markup(syntax, theme, lines, n),
        lines_markup(syntax, theme, lines, n + 1) matches Ok(all) ==> {
            &&& lines_markup(syntax, theme, lines, n)->Ok_0.is_prefix_of(all)
            &&& coloured(syntax, theme, lines.take(n), lines[n]) matches Ok(rs) && regions_markup(
                rs,
                rs.len() as int,
            ).is_suffix_of(all)
        },
{
    if let Ok(m) = lines_markup(syntax, theme, lines, n) {
        if let Ok(rs) = coloured(syntax, theme, lines.take(n), lines[n]) {
            let tail = regions_markup(rs, rs.len() as int);
            let all = m + tail;
            assert(all.subrange(0, m.len() as int) =~= m);
            assert(all.subrange(all.len() - tail.len(), all.len() as int) =~= tail);
        }
    }
}

/// Law: what could not be coloured is shown all the same, and a text that
/// was cut short ends in a note, which no other has added.
pub proof fn law_text_is_shown_in_any_case(m: Seq<char>, why: Seq<char>, body: Seq<char>)
    ensures
        shown_markup(Ok(m), body, false) == m,
        shown_markup(Err(why), body, false) == escaped(body),
        shown_markup(Ok(m), body, true) == m + TRUNCATION_NOTE@,
        shown_markup(Err(why), body, true) == escaped(body) + TRUNCATION_NOTE@,
{
}

/// Law: of a file, the first fifty kibibytes are shown, or all of it.
pub proof fn law_the_beginning_is_shown(read: Seq<u8>)
    ensures
        shown_part(read).is_prefix_of(read),
        read.len() <= 50 * 1024 ==> shown_part(read) == read,
        read.len() > 50 * 1024 ==> shown_part(read).len() == 50 * 1024,
{
}

/// Law: source code is told by these extensions and no others.
pub proof fn law_source_files_are_known(e: Seq<char>)
    ensures
        code_extension(e) <==> seq![
            "rs"@, "py"@, "js"@, "ts"@, "jsx"@, "tsx"@,
            "go"@, "c"@, "cc"@, "cpp"@, "cxx"@, "h"@,
            "hh"@, "hpp"@, "hxx"@, "java"@, "kt"@, "rb"@,
            "sh"@, "bash"@, "zsh"@, "fish"@, "toml"@, "yaml"@,
            "yml"@, "json"@, "xml"@, "html"@, "htm"@, "css"@,
            "scss"@, "sass"@, "sql"@, "lua"@, "pl"@, "pm"@,
            "swift"@, "zig"@, "nim"@, "hs"@, "ml"@, "mli"@,
            "scala"@, "clj"@, "cljs"@, "ex"@, "exs"@, "erl"@,
            "dart"@, "md"@, "markdown"@, "vim"@, "r"@, "php"@,
            "cs"@, "fs"@, "fsx"@,
        ].contains(e),
{
    let known = seq![
        "rs"@, "py"@, "js"@, "ts"@, "jsx"@, "tsx"@,
        "go"@, "c"@, "cc"@, "cpp"@, "cxx"@, "h"@,
        "hh"@, "hpp"@, "hxx"@, "java"@, "kt"@, "rb"@,
        "sh"@, "bash"@, "zsh"@, "fish"@, "toml"@, "yaml"@,
        "yml"@, "json"@, "xml"@, "html"@, "htm"@, "css"@,
        "scss"@, "sass"@, "sql"@, "lua"@, "pl"@, "pm"@,
        "swift"@, "zig"@, "nim"@, "hs"@, "ml"@, "mli"@,
        "scala"@, "clj"@, "cljs"@, "ex"@, "exs"@, "erl"@,
        "dart"@, "md"@, "markdown"@, "vim"@, "r"@, "php"@,
        "cs"@, "fs"@, "fsx"@,
    ];
    assert(known[0] == "rs"@ && known[1] == "py"@ && known[2] == "js"@);
    assert(known[3] == "ts"@ && known[4] == "jsx"@ && known[5] == "tsx"@);
    assert(known[6] == "go"@ && known[7] == "c"@ && known[8] == "cc"@);
    assert(known[9] == "cpp"@ && known[10] == "cxx"@ && known[11] == "h"@);
    assert(known[12] == "hh"@ && known[13] == "hpp"@ && known[14] == "hxx"@);
    assert(known[15] == "java"@ && known[16] == "kt"@ && known[17] == "rb"@);
    assert(known[18] == "sh"@ && known[19] == "bash"@ && known[20] == "zsh"@);
    assert(known[21] == "fish"@ && known[22] == "toml"@ && known[23] == "yaml"@);
    assert(known[24] == "yml"@ && known[25] == "json"@ && known[26] == "xml"@);
    assert(known[27] == "html"@ && known[28] == "htm"@ && known[29] == "css"@);
    assert(known[30] == "scss"@ && known[31] == "sass"@ && known[32] == "sql"@);
    assert(known[33] == "lua"@ && known[34] == "pl"@ && known[35] == "pm"@);
    assert(known[36] == "swift"@ && known[37] == "zig"@ && known[38] == "nim"@);
    assert(known[39] == "hs"@ && known[40] == "ml"@ && known[41] == "mli"@);
    assert(known[42] == "scala"@ && known[43] == "clj"@ && known[44] == "cljs"@);
    assert(known[45] == "ex"@ && known[46] == "exs"@ && known[47] == "erl"@);
    assert(known[48] == "dart"@ && known[49] == "md"@ && known[50] == "markdown"@);
    assert(known[51] == "vim"@ && known[52] == "r"@ && known[53] == "php"@);
    assert(known[54] == "cs"@ && known[55] == "fs"@ && known[56] == "fsx"@);
    if code_extension(e) {
        assert(known.contains(e));
    }
    if known.contains(e) {
        let k = choose|k: int| 0 <= k < known.len() && known[k] == e;
        assert(code_extension(known[k]));
    }
}

/// Law: source code is shown by the end of its name.
pub proof fn law_source_code_is_shown(hit: Hit)
    ensures
        score(hit) > 0 <==> (hits::action_path(hit.action) matches Some(p) && (
        paths::lower_extension_of(p) matches Some(e) && code_extension(e))),
        score(hit) == 0 || score(hit) == 70,
{
}

} // verus!
