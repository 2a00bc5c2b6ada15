//! Text shown on window rectangles and the desktop-entry lookup behind
//! application icons.

use vstd::prelude::*;

use crate::config::LabelContent;
use crate::model::Window;
use crate::text::{chars_equal, chars_of, chars_start_with, has_prefix, string_from_chars, trim, trim_chars};

verus! {

/// A string's characters when it is present and not empty.
pub open spec fn present(s: Option<String>) -> Option<Seq<char>> {
    match s {
        Some(t) => if t@.len() > 0 { Some(t@) } else { None },
        None => None,
    }
}

/// The separator between application id and title.
pub open spec fn label_separator() -> Seq<char> {
    seq![' ', '\u{2014}', ' ']
}

/// The label text for the given content, from the present title and
/// application id: each falls back to the other, and both together read
/// "app — title".
pub open spec fn label_text_spec(content: LabelContent, title: Option<Seq<char>>, app_id: Option<Seq<char>>) -> Option<Seq<char>> {
    match content {
        LabelContent::NoText => None,
        LabelContent::Title => if title is Some { title } else { app_id },
        LabelContent::AppId => if app_id is Some { app_id } else { title },
        LabelContent::AppIdTitle => match (app_id, title) {
            (Some(a), Some(t)) => Some(a + label_separator() + t),
            (Some(a), None) => Some(a),
            (None, Some(t)) => Some(t),
            (None, None) => None,
        },
    }
}

/// The characters of an optional string.
pub open spec fn opt_chars(s: Option<String>) -> Option<Seq<char>> {
    match s {
        Some(t) => Some(t@),
        None => None,
    }
}

/// The characters of a string that is present and not empty.
fn present_chars(s: &Option<String>) -> (r: Option<Vec<char>>)
    ensures
        match r {
            Some(v) => present(*s) == Some(v@),
            None => present(*s) is None,
        },
{
    match s {
        Some(t) => {
            let v = chars_of(t.as_str());
            if v.len() > 0 {
                Some(v)
            } else {
                None
            }
        },
        None => None,
    }
}

/// Resolve the label text for a window, falling back to whichever of title
/// and application id is available; empty strings count as missing.
pub fn label_text(content: LabelContent, window: &Window) -> (r: Option<String>)
    ensures
        opt_chars(r) == label_text_spec(content, present(window.title), present(window.app_id)),
{
    let title = present_chars(&window.title);
    let app_id = present_chars(&window.app_id);
    match content {
        LabelContent::NoText => None,
        LabelContent::Title => match (title, app_id) {
            (Some(t), _) => Some(string_from_chars(t.as_slice())),
            (None, Some(a)) => Some(string_from_chars(a.as_slice())),
            (None, None) => None,
        },
        LabelContent::AppId => match (app_id, title) {
            (Some(a), _) => Some(string_from_chars(a.as_slice())),
            (None, Some(t)) => Some(string_from_chars(t.as_slice())),
            (None, None) => None,
        },
        LabelContent::AppIdTitle => match (app_id, title) {
            (Some(a), Some(t)) => {
                let mut v = a;
                v.push(' ');
                v.push('\u{2014}');
                v.push(' ');
                let ghost before = v@;
                let mut tt = t;
                v.append(&mut tt);
                proof {
                    assert(v@ =~= a@ + label_separator() + t@);
                }
                Some(string_from_chars(v.as_slice()))
            },
            (Some(a), None) => Some(string_from_chars(a.as_slice())),
            (None, Some(t)) => Some(string_from_chars(t.as_slice())),
            (None, None) => None,
        },
    }
}


/// The pieces of a text between `\n` characters (the last piece may be
/// empty). Trimming each piece also drops the `\r` of `\r\n` endings, so
/// trimmed pieces are trimmed lines.
pub open spec fn split_lines(s: Seq<char>) -> Seq<Seq<char>>
    decreases s.len(),
{
    if s.len() == 0 {
        seq![Seq::empty()]
    } else {
        let prev = split_lines(s.drop_last());
        if s.last() == '\n' {
            prev.push(Seq::empty())
        } else {
            prev.update(prev.len() - 1, prev.last().push(s.last()))
        }
    }
}

/// The state of the desktop-entry reader: inside the `[Desktop Entry]`
/// group, the first `StartupWMClass` value and the first `Icon` value.
pub struct EntryScan {
    pub in_entry: bool,
    pub wm_class: Option<Seq<char>>,
    pub icon: Option<Seq<char>>,
}

/// The reader's state after one raw line: a group header switches the
/// group, and inside `[Desktop Entry]` the first `StartupWMClass=` and
/// `Icon=` values (trimmed) are kept.
pub open spec fn scan_line(st: EntryScan, raw: Seq<char>) -> EntryScan {
    let line = trim(raw);
    if line.len() > 0 && line[0] == '[' {
        EntryScan { in_entry: line == "[Desktop Entry]"@, ..st }
    } else if !st.in_entry {
        st
    } else if has_prefix(line, "StartupWMClass="@) {
        EntryScan {
            wm_class: if st.wm_class is Some { st.wm_class } else { Some(trim(line.skip("StartupWMClass="@.len() as int))) },
            ..st
        }
    } else if has_prefix(line, "Icon="@) {
        EntryScan {
            icon: if st.icon is Some { st.icon } else { Some(trim(line.skip("Icon="@.len() as int))) },
            ..st
        }
    } else {
        st
    }
}

/// The reader's state after a list of raw lines.
pub open spec fn scan_lines(lines: Seq<Seq<char>>) -> EntryScan
    decreases lines.len(),
{
    if lines.len() == 0 {
        EntryScan { in_entry: false, wm_class: None, icon: None }
    } else {
        scan_line(scan_lines(lines.drop_last()), lines.last())
    }
}

/// The (StartupWMClass, Icon) values of a desktop file.
pub open spec fn desktop_entry_spec(contents: Seq<char>) -> (Option<Seq<char>>, Option<Seq<char>>) {
    let st = scan_lines(split_lines(contents));
    (st.wm_class, st.icon)
}

/// Executable form of the reader's state.
struct EntryScanner {
    in_entry: bool,
    wm_class: Option<Vec<char>>,
    icon: Option<Vec<char>>,
}

impl EntryScanner {
    spec fn model(&self) -> EntryScan {
        EntryScan {
            in_entry: self.in_entry,
            wm_class: match self.wm_class { Some(v) => Some(v@), None => None },
            icon: match self.icon { Some(v) => Some(v@), None => None },
        }
    }

    fn scan(&mut self, raw: &[char], header: &[char], wm_key: &[char], icon_key: &[char])
        requires
            header@ == "[Desktop Entry]"@,
            wm_key@ == "StartupWMClass="@,
            icon_key@ == "Icon="@,
        ensures
            final(self).model() == scan_line(old(self).model(), raw@),
    {
        let line = trim_chars(raw, 0);
        proof {
            assert(raw@.skip(0) =~= raw@);
        }
        if line.len() > 0 && line[0] == '[' {
            self.in_entry = chars_equal(line.as_slice(), header);
        } else if !self.in_entry {
        } else if chars_start_with(line.as_slice(), wm_key) {
            if self.wm_class.is_none() {
                self.wm_class = Some(trim_chars(line.as_slice(), wm_key.len()));
            }
        } else if chars_start_with(line.as_slice(), icon_key) {
            if self.icon.is_none() {
                self.icon = Some(trim_chars(line.as_slice(), icon_key.len()));
            }
        }
    }
}

/// Extract (StartupWMClass, Icon) from the `[Desktop Entry]` group of a
/// desktop file; the first occurrence of each key wins and other groups are
/// ignored.
pub fn parse_desktop_entry(contents: &str) -> (r: (Option<String>, Option<String>))
    ensures
        (opt_chars(r.0), opt_chars(r.1)) == desktop_entry_spec(contents@),
{
    let chars = chars_of(contents);
    let header = chars_of("[Desktop Entry]");
    let wm_key = chars_of("StartupWMClass=");
    let icon_key = chars_of("Icon=");
    let mut st = EntryScanner { in_entry: false, wm_class: None, icon: None };
    let mut line: Vec<char> = Vec::new();
    let mut i: usize = 0;
    while i < chars.len()
        invariant
            i <= chars@.len(),
            header@ == "[Desktop Entry]"@,
            wm_key@ == "StartupWMClass="@,
            icon_key@ == "Icon="@,
            split_lines(chars@.take(i as int)).len() > 0,
            line@ == split_lines(chars@.take(i as int)).last(),
            st.model() == scan_lines(split_lines(chars@.take(i as int)).drop_last()),
        decreases chars@.len() - i,
    {
        let c = chars[i];
        let ghost prev = split_lines(chars@.take(i as int));
        proof {
            assert(chars@.take(i + 1).drop_last() =~= chars@.take(i as int));
            assert(chars@.take(i + 1).last() == c);
        }
        if c == '\n' {
            st.scan(line.as_slice(), header.as_slice(), wm_key.as_slice(), icon_key.as_slice());
            line = Vec::new();
            proof {
                let next = split_lines(chars@.take(i + 1));
                assert(next == prev.push(Seq::empty()));
                assert(next.drop_last() =~= prev);
                assert(prev =~= prev.drop_last().push(prev.last()));
            }
        } else {
            line.push(c);
            proof {
                let next = split_lines(chars@.take(i + 1));
                assert(next.drop_last() =~= prev.drop_last());
            }
        }
        i += 1;
    }
    st.scan(line.as_slice(), header.as_slice(), wm_key.as_slice(), icon_key.as_slice());
    proof {
        assert(chars@.take(chars@.len() as int) =~= chars@);
        let all = split_lines(chars@);
        assert(all =~= all.drop_last().push(all.last()));
    }
    let wm = match st.wm_class {
        Some(v) => Some(string_from_chars(v.as_slice())),
        None => None,
    };
    let icon = match st.icon {
        Some(v) => Some(string_from_chars(v.as_slice())),
        None => None,
    };
    (wm, icon)
}

/// What `str::to_lowercase` returns for a string: its Unicode lowercase
/// mapping.
pub uninterp spec fn lowercase_of(s: Seq<char>) -> Seq<char>;

/// The Unicode lowercase form of a string.
///
/// Calls `str::to_lowercase`; the contract only names its result, as the
/// Unicode case tables it follows are not restated here.
#[verifier::external_body]
fn to_lowercase(s: &str) -> (r: String)
    ensures
        r@ == lowercase_of(s@),
{
    s.to_lowercase()
}

/// What `char::to_uppercase` yields for a character, as a string.
pub uninterp spec fn uppercase_of(c: char) -> Seq<char>;

/// The Unicode uppercase form of a character, as a string (it may be more
/// than one character).
///
/// Calls `char::to_uppercase`; the contract only names its result.
#[verifier::external_body]
fn char_to_uppercase(c: char) -> (r: String)
    ensures
        r@ == uppercase_of(c),
{
    c.to_uppercase().collect()
}

/// The position of the last `.` in a name, if any.
pub open spec fn last_dot(s: Seq<char>) -> Option<int>
    decreases s.len(),
{
    if s.len() == 0 {
        None
    } else if s.last() == '.' {
        Some(s.len() - 1)
    } else {
        last_dot(s.drop_last())
    }
}

/// Whether a file name names no file of its own (empty, or `..`).
pub open spec fn no_file_name(name: Seq<char>) -> bool {
    name.len() == 0 || name == seq!['.', '.']
}

/// The stem of a file name, as `Path::file_stem` takes it: the part before
/// the last `.`, or the whole name when it has no `.` or only a leading one.
pub open spec fn file_stem(name: Seq<char>) -> Option<Seq<char>> {
    if no_file_name(name) {
        None
    } else {
        match last_dot(name) {
            Some(p) => if p > 0 { Some(name.take(p)) } else { Some(name) },
            None => Some(name),
        }
    }
}

/// The extension of a file name, as `Path::extension` takes it: the part
/// after the last `.`, unless that `.` is the first character.
pub open spec fn file_extension(name: Seq<char>) -> Option<Seq<char>> {
    if no_file_name(name) {
        None
    } else {
        match last_dot(name) {
            Some(p) => if p > 0 { Some(name.skip(p + 1)) } else { None },
            None => None,
        }
    }
}

/// The extension of desktop files.
pub open spec fn desktop_extension() -> Seq<char> {
    seq!['d', 'e', 's', 'k', 't', 'o', 'p']
}

/// The position of the last `.` in the characters.
fn last_dot_of(chars: &Vec<char>) -> (r: Option<usize>)
    ensures
        match r {
            Some(p) => last_dot(chars@) == Some(p as int) && p < chars@.len() && chars@[p as int] == '.',
            None => last_dot(chars@) is None,
        },
{
    let mut i: usize = chars.len();
    proof {
        assert(chars@.take(chars@.len() as int) =~= chars@);
    }
    while i > 0 && chars[i - 1] != '.'
        invariant
            i <= chars@.len(),
            last_dot(chars@) == last_dot(chars@.take(i as int)),
        decreases i,
    {
        proof {
            assert(chars@.take(i as int).drop_last() =~= chars@.take(i - 1));
        }
        i -= 1;
    }
    if i == 0 {
        None
    } else {
        proof {
            assert(chars@.take(i as int).last() == chars@[i - 1]);
        }
        Some(i - 1)
    }
}

/// Whether the characters name no file of their own.
fn is_no_file_name(name: &Vec<char>) -> (b: bool)
    ensures
        b == no_file_name(name@),
{
    let b = name.len() == 0 || (name.len() == 2 && name[0] == '.' && name[1] == '.');
    proof {
        if name@.len() == 2 && name@[0] == '.' && name@[1] == '.' {
            assert(name@ =~= seq!['.', '.']);
        }
    }
    b
}

/// Whether a file name has the `desktop` extension (the files scanned for
/// the icon index).
pub fn is_desktop_file_name(file_name: &str) -> (b: bool)
    ensures
        b == (file_extension(file_name@) == Some(desktop_extension())),
{
    let name = chars_of(file_name);
    if is_no_file_name(&name) {
        return false;
    }
    match last_dot_of(&name) {
        Some(p) => {
            if p == 0 || name.len() - (p + 1) != 7 {
                proof {
                    if p > 0 {
                        assert(name@.skip(p + 1).len() != desktop_extension().len());
                    }
                }
                return false;
            }
            let ext = chars_of("desktop");
            proof {
                reveal_strlit("desktop");
                assert(ext@ =~= desktop_extension());
                assert(name@.skip(p + 1) =~= name@.subrange(p + 1, name@.len() as int));
            }
            chars_equal(&name.as_slice()[p + 1..name.len()], ext.as_slice())
        },
        None => false,
    }
}

/// The stem of a file name.
fn file_stem_of(name: &Vec<char>) -> (r: Option<String>)
    ensures
        opt_chars(r) == file_stem(name@),
{
    if is_no_file_name(name) {
        return None;
    }
    match last_dot_of(name) {
        Some(p) => if p > 0 {
            proof {
                assert(name@.subrange(0, p as int) =~= name@.take(p as int));
            }
            Some(string_from_chars(&name.as_slice()[0..p]))
        } else {
            Some(string_from_chars(name.as_slice()))
        },
        None => Some(string_from_chars(name.as_slice())),
    }
}

/// The entries a file contributes to the desktop icon index, in order of
/// precedence: nothing unless it names an icon; else its lowercased
/// `StartupWMClass`, if any, then its lowercased file stem, if any, each
/// mapped to the icon.
pub open spec fn desktop_index_spec(name: Seq<char>, contents: Seq<char>) -> Seq<(Seq<char>, Seq<char>)> {
    let (wm_class, icon) = desktop_entry_spec(contents);
    match icon {
        Some(icon) => (match wm_class {
            Some(w) => seq![(lowercase_of(w), icon)],
            None => Seq::empty(),
        }) + (match file_stem(name) {
            Some(stem) => seq![(lowercase_of(stem), icon)],
            None => Seq::empty(),
        }),
        None => Seq::empty(),
    }
}

/// The views of a list of string pairs.
pub open spec fn pairs_view(v: Seq<(String, String)>) -> Seq<(Seq<char>, Seq<char>)> {
    v.map_values(|p: (String, String)| (p.0@, p.1@))
}

/// The entries a file named `file_name` with the given contents contributes
/// to the index from lowercased application ids to icon names. Earlier
/// entries, and entries of files indexed earlier, take precedence.
pub fn desktop_index_entries(file_name: &str, contents: &str) -> (r: Vec<(String, String)>)
    ensures
        pairs_view(r@) == desktop_index_spec(file_name@, contents@),
{
    let mut r: Vec<(String, String)> = Vec::new();
    let (wm_class, icon) = parse_desktop_entry(contents);
    let icon = match icon {
        Some(i) => i,
        None => {
            proof {
                assert(pairs_view(r@) =~= Seq::empty());
            }
            return r;
        },
    };
    if let Some(w) = wm_class {
        let key = to_lowercase(w.as_str());
        r.push((key, copy_string(&icon)));
    }
    let name = chars_of(file_name);
    if let Some(stem) = file_stem_of(&name) {
        let key = to_lowercase(stem.as_str());
        r.push((key, icon));
    }
    proof {
        assert(pairs_view(r@) =~= desktop_index_spec(file_name@, contents@));
    }
    r
}

/// The letter drawn when no icon is found for an application id: its first
/// character, uppercased; none for an empty id.
pub open spec fn fallback_letter_spec(app_id: Seq<char>) -> Option<Seq<char>> {
    if app_id.len() == 0 {
        None
    } else {
        Some(uppercase_of(app_id[0]))
    }
}

/// The letter drawn in place of an application icon that cannot be found.
pub fn fallback_letter(app_id: &str) -> (r: Option<String>)
    ensures
        opt_chars(r) == fallback_letter_spec(app_id@),
{
    let chars = chars_of(app_id);
    if chars.len() > 0 {
        Some(char_to_uppercase(chars[0]))
    } else {
        None
    }
}

/// A question the icon lookup asks of the icon theme or the desktop-file
/// index.
#[derive(Debug, PartialEq, Eq)]
pub enum IconQuery {
    /// Does the icon theme have an icon of this name?
    ThemeHas(String),
    /// Which icon does the desktop-file index give for this key?
    DesktopIndex(String),
}

/// Where an application's icon comes from.
#[derive(Debug, PartialEq, Eq)]
pub enum IconSource {
    /// The icon theme's icon of this name
    Themed(String),
    /// The image file at this absolute path
    File(String),
    /// None: the fallback letter is drawn
    Missing,
}

/// What the lookup does next.
#[derive(Debug, PartialEq, Eq)]
pub enum IconStep {
    /// Ask a question and report the answer
    Ask(IconQuery),
    /// The lookup is over
    Done(IconSource),
}

/// The answer to an [`IconQuery`].
#[derive(Debug)]
pub enum IconAnswer {
    /// Whether the theme has the icon
    InTheme(bool),
    /// The icon the index gives, if any
    DesktopIcon(Option<String>),
}

/// How far an icon lookup has come.
#[derive(Debug)]
pub enum IconStage {
    /// Asked whether the theme has the application id itself
    AppId,
    /// Asked whether the theme has the lowercased application id
    Lowercase,
    /// Asked the desktop-file index for the lowercased application id
    Index,
    /// Asked whether the theme has the icon the index gave
    IndexedName(String),
}

/// An icon lookup in progress: the application id itself, then its
/// lowercase form, as themed icon names; then the desktop-file index, whose
/// icon is either an absolute file path or a themed name.
#[derive(Debug)]
pub struct IconLookup {
    pub app_id: String,
    pub lowercase: String,
    pub stage: IconStage,
}

/// The model of a lookup's stage.
pub enum StageView {
    AppId,
    Lowercase,
    Index,
    IndexedName(Seq<char>),
}

/// The model of a step.
pub enum StepView {
    AskTheme(Seq<char>),
    AskIndex(Seq<char>),
    Themed(Seq<char>),
    File(Seq<char>),
    Missing,
}

impl View for IconStage {
    type V = StageView;

    open spec fn view(&self) -> StageView {
        match self {
            IconStage::AppId => StageView::AppId,
            IconStage::Lowercase => StageView::Lowercase,
            IconStage::Index => StageView::Index,
            IconStage::IndexedName(n) => StageView::IndexedName(n@),
        }
    }
}

impl View for IconStep {
    type V = StepView;

    open spec fn view(&self) -> StepView {
        match self {
            IconStep::Ask(IconQuery::ThemeHas(n)) => StepView::AskTheme(n@),
            IconStep::Ask(IconQuery::DesktopIndex(k)) => StepView::AskIndex(k@),
            IconStep::Done(IconSource::Themed(n)) => StepView::Themed(n@),
            IconStep::Done(IconSource::File(p)) => StepView::File(p@),
            IconStep::Done(IconSource::Missing) => StepView::Missing,
        }
    }
}

/// The stage and step after an answer, given the lookup's stage, its
/// application id and lowercase form. An answer of the wrong kind ends the
/// lookup without an icon.
pub open spec fn icon_next(stage: StageView, app_id: Seq<char>, lowercase: Seq<char>, answer: IconAnswer)
    -> (StageView, StepView)
{
    match (stage, answer) {
        (StageView::AppId, IconAnswer::InTheme(true)) => (stage, StepView::Themed(app_id)),
        (StageView::AppId, IconAnswer::InTheme(false)) => (StageView::Lowercase, StepView::AskTheme(lowercase)),
        (StageView::Lowercase, IconAnswer::InTheme(true)) => (stage, StepView::Themed(lowercase)),
        (StageView::Lowercase, IconAnswer::InTheme(false)) => (StageView::Index, StepView::AskIndex(lowercase)),
        (StageView::Index, IconAnswer::DesktopIcon(None)) => (stage, StepView::Missing),
        (StageView::Index, IconAnswer::DesktopIcon(Some(icon))) => if icon@.len() > 0 && icon@[0] == '/' {
            (stage, StepView::File(icon@))
        } else {
            (StageView::IndexedName(icon@), StepView::AskTheme(icon@))
        },
        (StageView::IndexedName(name), IconAnswer::InTheme(true)) => (stage, StepView::Themed(name)),
        (StageView::IndexedName(name), IconAnswer::InTheme(false)) => (stage, StepView::Missing),
        _ => (stage, StepView::Missing),
    }
}

/// A copy of a string.
fn copy_string(s: &String) -> (r: String)
    ensures
        r@ == s@,
{
    let v = chars_of(s.as_str());
    string_from_chars(v.as_slice())
}

impl IconLookup {
    /// Start looking up the icon of an application id: first ask the theme
    /// for the id itself.
    pub fn start(app_id: &str) -> (r: (IconLookup, IconStep))
        ensures
            r.0.app_id@ == app_id@,
            r.0.lowercase@ == lowercase_of(app_id@),
            r.0.stage@ == StageView::AppId,
            r.1@ == StepView::AskTheme(app_id@),
    {
        let chars = chars_of(app_id);
        let id = string_from_chars(chars.as_slice());
        let first = string_from_chars(chars.as_slice());
        let lowercase = to_lowercase(app_id);
        (IconLookup { app_id: id, lowercase, stage: IconStage::AppId }, IconStep::Ask(IconQuery::ThemeHas(first)))
    }

    /// Take the answer to the last question and say what comes next.
    pub fn advance(&mut self, answer: IconAnswer) -> (step: IconStep)
        ensures
            final(self).app_id@ == old(self).app_id@,
            final(self).lowercase@ == old(self).lowercase@,
            (final(self).stage@, step@) == icon_next(old(self).stage@, old(self).app_id@, old(self).lowercase@, answer),
    {
        match (&self.stage, answer) {
            (IconStage::AppId, IconAnswer::InTheme(true)) => IconStep::Done(IconSource::Themed(copy_string(&self.app_id))),
            (IconStage::AppId, IconAnswer::InTheme(false)) => {
                self.stage = IconStage::Lowercase;
                IconStep::Ask(IconQuery::ThemeHas(copy_string(&self.lowercase)))
            },
            (IconStage::Lowercase, IconAnswer::InTheme(true)) => IconStep::Done(IconSource::Themed(copy_string(&self.lowercase))),
            (IconStage::Lowercase, IconAnswer::InTheme(false)) => {
                self.stage = IconStage::Index;
                IconStep::Ask(IconQuery::DesktopIndex(copy_string(&self.lowercase)))
            },
            (IconStage::Index, IconAnswer::DesktopIcon(None)) => IconStep::Done(IconSource::Missing),
            (IconStage::Index, IconAnswer::DesktopIcon(Some(icon))) => {
                let chars = chars_of(icon.as_str());
                if chars.len() > 0 && chars[0] == '/' {
                    IconStep::Done(IconSource::File(icon))
                } else {
                    let name = copy_string(&icon);
                    self.stage = IconStage::IndexedName(icon);
                    IconStep::Ask(IconQuery::ThemeHas(name))
                }
            },
            (IconStage::IndexedName(name), IconAnswer::InTheme(true)) => IconStep::Done(IconSource::Themed(copy_string(name))),
            (IconStage::IndexedName(_), IconAnswer::InTheme(false)) => IconStep::Done(IconSource::Missing),
            _ => IconStep::Done(IconSource::Missing),
        }
    }
}

/// Whether no two entries of an index share a key.
pub open spec fn keys_distinct(idx: Seq<(Seq<char>, Seq<char>)>) -> bool {
    forall|i: int, j: int| 0 <= i < idx.len() && 0 <= j < idx.len() && i != j ==> idx[i].0 != idx[j].0
}

/// Whether an index has an entry for the key.
pub open spec fn index_has(idx: Seq<(Seq<char>, Seq<char>)>, key: Seq<char>) -> bool {
    exists|i: int| 0 <= i < idx.len() && (#[trigger] idx[i]).0 == key
}

/// The index after adding entries in order: an entry whose key is already
/// present is dropped, so the first icon given for a key stays.
pub open spec fn index_add(idx: Seq<(Seq<char>, Seq<char>)>, entries: Seq<(Seq<char>, Seq<char>)>) -> Seq<(Seq<char>, Seq<char>)>
    decreases entries.len(),
{
    if entries.len() == 0 {
        idx
    } else {
        let prev = index_add(idx, entries.drop_last());
        if index_has(prev, entries.last().0) {
            prev
        } else {
            prev.push(entries.last())
        }
    }
}

/// The icon an index gives for a key: that of the entry with the key.
pub open spec fn index_get(idx: Seq<(Seq<char>, Seq<char>)>, key: Seq<char>) -> Option<Seq<char>> {
    if index_has(idx, key) {
        Some(idx[choose|i: int| 0 <= i < idx.len() && (#[trigger] idx[i]).0 == key].1)
    } else {
        None
    }
}

/// Whether two strings are equal.
fn strings_equal(a: &String, b: &String) -> (r: bool)
    ensures
        r == (a@ == b@),
{
    let x = chars_of(a.as_str());
    let y = chars_of(b.as_str());
    chars_equal(x.as_slice(), y.as_slice())
}

/// The position of the entry with the key, if any.
fn index_position(index: &Vec<(String, String)>, key: &String) -> (r: Option<usize>)
    ensures
        match r {
            Some(i) => i < index@.len() && pairs_view(index@)[i as int].0 == key@,
            None => !index_has(pairs_view(index@), key@),
        },
{
    let mut i: usize = 0;
    while i < index.len()
        invariant
            i <= index@.len(),
            forall|j: int| 0 <= j < i ==> pairs_view(index@)[j].0 != key@,
        decreases index@.len() - i,
    {
        if strings_equal(&index[i].0, key) {
            return Some(i);
        }
        i += 1;
    }
    proof {
        assert forall|j: int| 0 <= j < pairs_view(index@).len() implies (#[trigger] pairs_view(index@)[j]).0 != key@ by {}
    }
    None
}

/// Add the entries of one desktop file to the icon index; a key already in
/// the index keeps the icon it has (files indexed first win).
pub fn index_desktop_entry(index: &mut Vec<(String, String)>, file_name: &str, contents: &str)
    requires
        keys_distinct(pairs_view(old(index)@)),
    ensures
        pairs_view(final(index)@) == index_add(pairs_view(old(index)@), desktop_index_spec(file_name@, contents@)),
        keys_distinct(pairs_view(final(index)@)),
{
    let entries = desktop_index_entries(file_name, contents);
    let ghost base = pairs_view(index@);
    let mut j: usize = 0;
    while j < entries.len()
        invariant
            j <= entries@.len(),
            pairs_view(entries@) == desktop_index_spec(file_name@, contents@),
            pairs_view(index@) == index_add(base, pairs_view(entries@).take(j as int)),
            keys_distinct(pairs_view(index@)),
        decreases entries@.len() - j,
    {
        let ghost before = pairs_view(index@);
        let ghost e = pairs_view(entries@)[j as int];
        proof {
            assert(pairs_view(entries@).take(j + 1).drop_last() =~= pairs_view(entries@).take(j as int));
            assert(pairs_view(entries@).take(j + 1).last() == e);
        }
        match index_position(index, &entries[j].0) {
            Some(_) => {},
            None => {
                let key = copy_string(&entries[j].0);
                let icon = copy_string(&entries[j].1);
                index.push((key, icon));
                proof {
                    assert(pairs_view(index@) =~= before.push(e));
                }
            },
        }
        j += 1;
    }
    proof {
        assert(pairs_view(entries@).take(entries@.len() as int) =~= pairs_view(entries@));
    }
}

/// The icon the index gives for a key, if any.
pub fn index_lookup(index: &Vec<(String, String)>, key: &String) -> (r: Option<String>)
    requires
        keys_distinct(pairs_view(index@)),
    ensures
        opt_chars(r) == index_get(pairs_view(index@), key@),
{
    match index_position(index, key) {
        Some(i) => {
            proof {
                let v = pairs_view(index@);
                let c = choose|t: int| 0 <= t < v.len() && (#[trigger] v[t]).0 == key@;
                assert(c == i);
            }
            Some(copy_string(&index[i].1))
        },
        None => None,
    }
}

/// The pieces of a text between `:` characters (the last piece may be
/// empty).
pub open spec fn colon_pieces(s: Seq<char>) -> Seq<Seq<char>>
    decreases s.len(),
{
    if s.len() == 0 {
        seq![Seq::empty()]
    } else {
        let prev = colon_pieces(s.drop_last());
        if s.last() == ':' {
            prev.push(Seq::empty())
        } else {
            prev.update(prev.len() - 1, prev.last().push(s.last()))
        }
    }
}

/// The data directories used when `XDG_DATA_DIRS` is unset.
pub open spec fn default_data_dirs() -> Seq<char> {
    "/usr/local/share:/usr/share"@
}

/// The system data directories from the value of `XDG_DATA_DIRS` (the
/// default list when unset): its non-empty `:`-separated pieces, in order.
pub open spec fn data_dirs_spec(value: Option<Seq<char>>) -> Seq<Seq<char>> {
    let list = match value {
        Some(v) => v,
        None => default_data_dirs(),
    };
    colon_pieces(list).filter(|p: Seq<char>| p.len() > 0)
}

/// The characters of an optional string slice.
pub open spec fn opt_str_chars(s: Option<&str>) -> Option<Seq<char>> {
    match s {
        Some(t) => Some(t@),
        None => None,
    }
}

/// The views of a list of strings.
pub open spec fn strings_view(v: Seq<String>) -> Seq<Seq<char>> {
    v.map_values(|s: String| s@)
}

/// The system data directories that may hold `applications/*.desktop`,
/// from the value of `XDG_DATA_DIRS`.
pub fn data_dirs(value: Option<&str>) -> (r: Vec<String>)
    ensures
        strings_view(r@) == data_dirs_spec(opt_str_chars(value)),
{
    let chars = match value {
        Some(v) => chars_of(v),
        None => chars_of("/usr/local/share:/usr/share"),
    };
    let ghost list = chars@;
    let ghost nonempty = |p: Seq<char>| p.len() > 0;
    let mut out: Vec<String> = Vec::new();
    let mut cur: Vec<char> = Vec::new();
    let mut i: usize = 0;
    while i < chars.len()
        invariant
            i <= chars@.len(),
            nonempty == (|p: Seq<char>| p.len() > 0),
            colon_pieces(chars@.take(i as int)).len() > 0,
            cur@ == colon_pieces(chars@.take(i as int)).last(),
            strings_view(out@) == colon_pieces(chars@.take(i as int)).drop_last().filter(nonempty),
        decreases chars@.len() - i,
    {
        let c = chars[i];
        let ghost prev = colon_pieces(chars@.take(i as int));
        proof {
            assert(chars@.take(i + 1).drop_last() =~= chars@.take(i as int));
            assert(chars@.take(i + 1).last() == c);
        }
        if c == ':' {
            let ghost before = strings_view(out@);
            if cur.len() > 0 {
                out.push(string_from_chars(cur.as_slice()));
            }
            cur = Vec::new();
            proof {
                reveal_with_fuel(Seq::<_>::filter, 1);
                let next = colon_pieces(chars@.take(i + 1));
                assert(next == prev.push(Seq::empty()));
                assert(next.drop_last() =~= prev);
                assert(prev =~= prev.drop_last().push(prev.last()));
                assert(prev.drop_last().push(prev.last()).drop_last() =~= prev.drop_last());
                assert(strings_view(out@) =~= prev.filter(nonempty));
            }
        } else {
            cur.push(c);
            proof {
                let next = colon_pieces(chars@.take(i + 1));
                assert(next.drop_last() =~= prev.drop_last());
            }
        }
        i += 1;
    }
    let ghost all = colon_pieces(chars@.take(i as int));
    if cur.len() > 0 {
        out.push(string_from_chars(cur.as_slice()));
    }
    proof {
        reveal_with_fuel(Seq::<_>::filter, 1);
        reveal_strlit("/usr/local/share:/usr/share");
        assert(chars@.take(chars@.len() as int) =~= chars@);
        assert(all =~= all.drop_last().push(all.last()));
        assert(all.drop_last().push(all.last()).drop_last() =~= all.drop_last());
        assert(strings_view(out@) =~= all.filter(nonempty));
    }
    out
}

/// The user data directory from the value of `XDG_DATA_HOME`: used only
/// when it is an absolute path.
pub fn data_home(value: Option<&str>) -> (r: Option<String>)
    ensures
        opt_chars(r) == (match value {
            Some(v) => if v@.len() > 0 && v@[0] == '/' { Some(v@) } else { None },
            None => None,
        }),
{
    match value {
        Some(v) => {
            let c = chars_of(v);
            if c.len() > 0 && c[0] == '/' {
                Some(string_from_chars(c.as_slice()))
            } else {
                None
            }
        },
        None => None,
    }
}

/// Which text each label setting draws: the application id setting shows
/// the application id whenever there is one and the title only without it;
/// the title setting the other way round; the combined setting joins both
/// as "app — title" or shows whichever one there is; no-text shows nothing.
pub proof fn law_label_text_choices(title: Option<Seq<char>>, app_id: Option<Seq<char>>)
    ensures
        label_text_spec(LabelContent::NoText, title, app_id) is None,
        app_id is Some ==> label_text_spec(LabelContent::AppId, title, app_id) == app_id,
        app_id is None ==> label_text_spec(LabelContent::AppId, title, app_id) == title,
        title is Some ==> label_text_spec(LabelContent::Title, title, app_id) == title,
        title is None ==> label_text_spec(LabelContent::Title, title, app_id) == app_id,
        (app_id is Some && title is Some) ==> label_text_spec(LabelContent::AppIdTitle, title, app_id) == Some(
            app_id.unwrap() + seq![' ', '\u{2014}', ' '] + title.unwrap(),
        ),
        app_id is None ==> label_text_spec(LabelContent::AppIdTitle, title, app_id) == title,
        title is None ==> label_text_spec(LabelContent::AppIdTitle, title, app_id) == app_id,
{
}

/// The themed name a lookup stage last asked about, if it asked the theme.
pub open spec fn asked_theme_name(stage: StageView, app_id: Seq<char>, lowercase: Seq<char>) -> Option<Seq<char>> {
    match stage {
        StageView::AppId => Some(app_id),
        StageView::Lowercase => Some(lowercase),
        StageView::Index => None,
        StageView::IndexedName(n) => Some(n),
    }
}

/// An icon lookup gives a themed icon exactly when the theme said yes to
/// the name just asked, and that name is the icon; it gives a file exactly
/// when the desktop-file index answered with an absolute path, which is the
/// file; a theme's no to the application id asks for its lowercase form,
/// and a no to that asks the index under the lowercase form.
pub proof fn law_icon_lookup_answers(stage: StageView, app_id: Seq<char>, lowercase: Seq<char>, answer: IconAnswer)
    ensures
        (icon_next(stage, app_id, lowercase, answer).1 is Themed) <==> (answer == IconAnswer::InTheme(true)
            && asked_theme_name(stage, app_id, lowercase) is Some),
        icon_next(stage, app_id, lowercase, answer).1 matches StepView::Themed(n)
            ==> asked_theme_name(stage, app_id, lowercase) == Some(n),
        (icon_next(stage, app_id, lowercase, answer).1 is File) <==> (stage is Index && (answer matches IconAnswer::DesktopIcon(
            Some(p)) && p@.len() > 0 && p@[0] == '/')),
        icon_next(stage, app_id, lowercase, answer).1 matches StepView::File(f)
            ==> (answer matches IconAnswer::DesktopIcon(Some(p)) && p@ == f),
        (stage is AppId && answer == IconAnswer::InTheme(false)) ==> icon_next(stage, app_id, lowercase, answer).1
            == StepView::AskTheme(lowercase),
        (stage is Lowercase && answer == IconAnswer::InTheme(false)) ==> icon_next(stage, app_id, lowercase, answer).1
            == StepView::AskIndex(lowercase),
{
}

/// In an index without repeated keys, the icon given for the key of an
/// entry is that entry's icon.
proof fn lemma_index_get_at(idx: Seq<(Seq<char>, Seq<char>)>, i: int)
    requires
        keys_distinct(idx),
        0 <= i < idx.len(),
    ensures
        index_get(idx, idx[i].0) == Some(idx[i].1),
{
    assert(index_has(idx, idx[i].0));
    let c = choose|t: int| 0 <= t < idx.len() && (#[trigger] idx[t]).0 == idx[i].0;
    assert(c == i);
}

/// Adding entries keeps the keys distinct.
proof fn lemma_index_add_distinct(idx: Seq<(Seq<char>, Seq<char>)>, entries: Seq<(Seq<char>, Seq<char>)>)
    requires
        keys_distinct(idx),
    ensures
        keys_distinct(index_add(idx, entries)),
    decreases entries.len(),
{
    if entries.len() > 0 {
        lemma_index_add_distinct(idx, entries.drop_last());
        let prev = index_add(idx, entries.drop_last());
        if !index_has(prev, entries.last().0) {
            let n = prev.push(entries.last());
            assert forall|i: int, j: int| 0 <= i < n.len() && 0 <= j < n.len() && i != j implies n[i].0 != n[j].0 by {
                if i == prev.len() {
                    assert(prev[j].0 != entries.last().0);
                } else if j == prev.len() {
                    assert(prev[i].0 != entries.last().0);
                }
            }
        }
    }
}

/// The icon index keeps the first icon given for a key: a key already in
/// the index keeps its icon; a new key takes the icon of its first entry;
/// a key named nowhere stays absent.
pub proof fn law_index_first_icon_wins(
    idx: Seq<(Seq<char>, Seq<char>)>,
    entries: Seq<(Seq<char>, Seq<char>)>,
    key: Seq<char>,
)
    requires
        keys_distinct(idx),
    ensures
        index_has(idx, key) ==> index_get(index_add(idx, entries), key) == index_get(idx, key),
        forall|i: int| 0 <= i < entries.len() && (#[trigger] entries[i]).0 == key && !index_has(idx, key)
            && (forall|j: int| 0 <= j < i ==> (#[trigger] entries[j]).0 != key)
            ==> index_get(index_add(idx, entries), key) == Some(entries[i].1),
        (!index_has(idx, key) && forall|j: int| 0 <= j < entries.len() ==> (#[trigger] entries[j]).0 != key)
            ==> index_get(index_add(idx, entries), key) is None,
    decreases entries.len(),
{
    if entries.len() > 0 {
        let e = entries.drop_last();
        let last = entries.last();
        let prev = index_add(idx, e);
        law_index_first_icon_wins(idx, e, key);
        lemma_index_add_distinct(idx, e);
        if !index_has(prev, last.0) {
            let n = prev.push(last);
            lemma_index_add_distinct(idx, entries);
            if index_has(prev, key) {
                let i = choose|i: int| 0 <= i < prev.len() && (#[trigger] prev[i]).0 == key;
                lemma_index_get_at(prev, i);
                assert(n[i] == prev[i]);
                lemma_index_get_at(n, i);
            } else if last.0 == key {
                lemma_index_get_at(n, prev.len() as int);
            } else {
                assert forall|t: int| 0 <= t < n.len() implies (#[trigger] n[t]).0 != key by {
                    if t < prev.len() {
                        assert(prev[t] == n[t]);
                    }
                }
            }
        }
        assert forall|i: int| 0 <= i < entries.len() && (#[trigger] entries[i]).0 == key && !index_has(idx, key)
            && (forall|j: int| 0 <= j < i ==> (#[trigger] entries[j]).0 != key)
            implies index_get(index_add(idx, entries), key) == Some(entries[i].1) by {
            if i < e.len() {
                assert(e[i] == entries[i]);
                assert forall|j: int| 0 <= j < i implies (#[trigger] e[j]).0 != key by {
                    assert(e[j] == entries[j]);
                }
            } else {
                assert forall|j: int| 0 <= j < e.len() implies (#[trigger] e[j]).0 != key by {
                    assert(e[j] == entries[j]);
                }
            }
        }
        if !index_has(idx, key) && forall|j: int| 0 <= j < entries.len() ==> (#[trigger] entries[j]).0 != key {
            assert forall|j: int| 0 <= j < e.len() implies (#[trigger] e[j]).0 != key by {
                assert(e[j] == entries[j]);
            }
            assert(last.0 != key);
        }
    }
}

} // verus!
