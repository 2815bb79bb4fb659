//! What a key binding is called and what its action does, in words.

use crate::help::rows::Category;
use crate::text::{chars_of, same_text};
use vstd::prelude::*;
use vstd::string::StringExecFns;

verus! {

/// The uppercase form of a text.
pub uninterp spec fn uppercase_of(text: Seq<char>) -> Seq<char>;

/// `str::to_uppercase`: the uppercase form by the Unicode rules, which depends
/// on the text alone. A lowercase ASCII letter becomes its uppercase one.
#[verifier::external_body]
fn to_uppercase(text: &str) -> (upper: String)
    ensures
        upper@ == uppercase_of(text@),
        text@.len() == 1 && 'a' <= text@[0] <= 'z' ==> upper@ == seq![
            (text@[0] as int - 32) as char,
        ],
{
    text.to_uppercase()
}

/// Modifiers of a binding.
#[derive(Clone, Copy, Debug, PartialEq, Eq, Structural)]
pub struct Modifiers {
    pub logo: bool,
    pub ctrl: bool,
    pub alt: bool,
    pub shift: bool,
}

/// A binding's key by its canonical name, and its modifiers.
pub struct KeyCombo {
    pub modifiers: Modifiers,
    pub key: String,
}

/// The name of a key on a key cap.
pub open spec fn key_label(raw: Seq<char>) -> Seq<char> {
    if raw == "Return"@ {
        "Enter"@
    } else if raw == "equal"@ {
        "="@
    } else if raw == "minus"@ {
        "−"@
    } else if raw == "plus"@ {
        "+"@
    } else if raw == "space"@ {
        "Space"@
    } else if raw == "Prior"@ {
        "PageUp"@
    } else if raw == "Next"@ {
        "PageDown"@
    } else if raw == "Up"@ {
        "↑"@
    } else if raw == "Down"@ {
        "↓"@
    } else if raw == "Left"@ {
        "←"@
    } else if raw == "Right"@ {
        "→"@
    } else if raw.len() == 1 {
        uppercase_of(raw)
    } else {
        raw
    }
}

/// Human-friendly name for a key, from its canonical name. A single letter
/// reads better uppercased; what has no better name keeps its own.
pub fn key_name(raw: &str) -> (name: String)
    ensures
        name@ == key_label(raw@),
        raw@.len() == 1 && 'a' <= raw@[0] <= 'z' ==> name@ == seq![
            (raw@[0] as int - 32) as char,
        ],
{
    proof {
        reveal_strlit("Return");
        reveal_strlit("equal");
        reveal_strlit("minus");
        reveal_strlit("plus");
        reveal_strlit("space");
        reveal_strlit("Prior");
        reveal_strlit("Next");
        reveal_strlit("Up");
        reveal_strlit("Down");
        reveal_strlit("Left");
        reveal_strlit("Right");
    }
    if same_text(raw, "Return") {
        String::from_str("Enter")
    } else if same_text(raw, "equal") {
        String::from_str("=")
    } else if same_text(raw, "minus") {
        String::from_str("−")
    } else if same_text(raw, "plus") {
        String::from_str("+")
    } else if same_text(raw, "space") {
        String::from_str("Space")
    } else if same_text(raw, "Prior") {
        String::from_str("PageUp")
    } else if same_text(raw, "Next") {
        String::from_str("PageDown")
    } else if same_text(raw, "Up") {
        String::from_str("↑")
    } else if same_text(raw, "Down") {
        String::from_str("↓")
    } else if same_text(raw, "Left") {
        String::from_str("←")
    } else if same_text(raw, "Right") {
        String::from_str("→")
    } else if raw.unicode_len() == 1 {
        to_uppercase(raw)
    } else {
        raw.to_owned()
    }
}

/// `part` in front, if it is held down.
pub open spec fn held(on: bool, part: Seq<char>) -> Seq<char> {
    if on {
        part + " + "@
    } else {
        Seq::empty()
    }
}

/// A binding in words, given the name of its key.
pub open spec fn combo_text(m: Modifiers, key: Seq<char>) -> Seq<char> {
    held(m.logo, "Super"@) + held(m.ctrl, "Ctrl"@) + held(m.alt, "Alt"@) + held(m.shift, "Shift"@)
        + key
}

fn push_held(s: &mut String, on: bool, part: &str)
    ensures
        final(s)@ == old(s)@ + held(on, part@),
{
    if on {
        s.append(part);
        s.append(" + ");
        assert(s@ =~= old(s)@ + held(on, part@));
    } else {
        assert(s@ =~= old(s)@ + held(on, part@));
    }
}

/// A binding in words, given the name of its key: the modifiers in a fixed
/// order, then the key.
pub fn combo_with_key(modifiers: &Modifiers, key: &str) -> (text: String)
    ensures
        text@ == combo_text(*modifiers, key@),
{
    let mut s = String::new();
    push_held(&mut s, modifiers.logo, "Super");
    push_held(&mut s, modifiers.ctrl, "Ctrl");
    push_held(&mut s, modifiers.alt, "Alt");
    push_held(&mut s, modifiers.shift, "Shift");
    s.append(key);
    assert(s@ =~= combo_text(*modifiers, key@));
    s
}

/// A binding in words.
pub fn format_combo(combo: &KeyCombo) -> (text: String)
    ensures
        text@ == combo_text(combo.modifiers, key_label(combo.key@)),
{
    let key = key_name(combo.key.as_str());
    combo_with_key(&combo.modifiers, key.as_str())
}

/// A direction on the canvas.
#[derive(Clone, Copy, Debug, PartialEq, Eq, Structural)]
pub enum Direction {
    Up,
    Down,
    Left,
    Right,
    UpLeft,
    UpRight,
    DownLeft,
    DownRight,
}

pub open spec fn direction_text(dir: Direction) -> Seq<char> {
    match dir {
        Direction::Up => "up"@,
        Direction::Down => "down"@,
        Direction::Left => "left"@,
        Direction::Right => "right"@,
        Direction::UpLeft => "up-left"@,
        Direction::UpRight => "up-right"@,
        Direction::DownLeft => "down-left"@,
        Direction::DownRight => "down-right"@,
    }
}

pub fn dir_label(dir: &Direction) -> (label: &'static str)
    ensures
        label@ == direction_text(*dir),
{
    match dir {
        Direction::Up => "up",
        Direction::Down => "down",
        Direction::Left => "left",
        Direction::Right => "right",
        Direction::UpLeft => "up-left",
        Direction::UpRight => "up-right",
        Direction::DownLeft => "down-left",
        Direction::DownRight => "down-right",
    }
}

/// What a binding does.
pub enum Action {
    /// A command, and the place of its program if it was found.
    Exec { cmd: String, resolved: Option<String> },
    Spawn { cmd: String, resolved: Option<String> },
    CloseWindow,
    NudgeWindow(Direction),
    PanViewport(Direction),
    CenterWindow,
    CenterNearest(Direction),
    CycleWindows { backward: bool },
    HomeToggle,
    /// The coordinates as whole numbers, in text.
    GoToPosition { x: String, y: String },
    ZoomIn,
    ZoomOut,
    ZoomReset,
    ZoomToFit,
    ZoomToFitSnapped,
    ToggleFullscreen,
    FitWindow,
    FitWindowSnapped,
    SendToOutput(Direction),
    FocusCenter,
    ReloadConfig,
    ToggleHelp,
    Quit,
}

pub open spec fn exec_text(cmd: Seq<char>, resolved: Option<Seq<char>>) -> Seq<char> {
    match resolved {
        Some(path) => "Run "@ + cmd + "   ·   "@ + path,
        None => "Run "@ + cmd,
    }
}

pub open spec fn opt_text(s: Option<String>) -> Option<Seq<char>> {
    match s {
        Some(s) => Some(s@),
        None => None,
    }
}

/// Describes a command, with the place of its program where it was found.
pub fn describe_exec(cmd: &str, resolved: Option<&str>) -> (text: String)
    ensures
        text@ == exec_text(
            cmd@,
            match resolved {
                Some(p) => Some(p@),
                None => None,
            },
        ),
{
    let mut s = String::from_str("Run ");
    s.append(cmd);
    if let Some(path) = resolved {
        s.append("   ·   ");
        s.append(path);
    }
    s
}

/// The category and description of an action.
pub open spec fn action_text(action: Action) -> (Category, Seq<char>) {
    match action {
        Action::Exec { cmd, resolved } => (Category::Apps, exec_text(cmd@, opt_text(resolved))),
        Action::Spawn { cmd, resolved } => (Category::Apps, exec_text(cmd@, opt_text(resolved))),
        Action::CloseWindow => (Category::Windows, "Close focused window"@),
        Action::NudgeWindow(d) => (Category::Windows, "Nudge window "@ + direction_text(d)),
        Action::PanViewport(d) => (Category::Navigation, "Pan viewport "@ + direction_text(d)),
        Action::CenterWindow => (Category::View, "Center focused window"@),
        Action::CenterNearest(d) => (
            Category::Navigation,
            "Focus nearest window "@ + direction_text(d),
        ),
        Action::CycleWindows { backward } => (
            Category::Navigation,
            if backward {
                "Cycle windows (reverse)"@
            } else {
                "Cycle windows"@
            },
        ),
        Action::HomeToggle => (Category::View, "Toggle home (origin)"@),
        Action::GoToPosition { x, y } => (
            Category::Navigation,
            "Jump to bookmark ("@ + x@ + ", "@ + y@ + ")"@,
        ),
        Action::ZoomIn => (Category::Zoom, "Zoom in"@),
        Action::ZoomOut => (Category::Zoom, "Zoom out"@),
        Action::ZoomReset => (Category::Zoom, "Reset zoom to 1.0"@),
        Action::ZoomToFit => (Category::Zoom, "Zoom to fit all windows"@),
        Action::ZoomToFitSnapped => (Category::Zoom, "Zoom to fit snapped cluster"@),
        Action::ToggleFullscreen => (Category::View, "Toggle fullscreen"@),
        Action::FitWindow => (Category::Windows, "Fit window to viewport"@),
        Action::FitWindowSnapped => (Category::Windows, "Fit snapped cluster"@),
        Action::SendToOutput(d) => (
            Category::Windows,
            "Send window to "@ + direction_text(d) + " output"@,
        ),
        Action::FocusCenter => (Category::View, "Focus window at viewport center"@),
        Action::ReloadConfig => (Category::System, "Reload config"@),
        Action::ToggleHelp => (Category::System, "Show / hide this help"@),
        Action::Quit => (Category::System, "Quit driftwm"@),
    }
}

fn with_direction(text: &str, dir: &Direction) -> (s: String)
    ensures
        s@ == text@ + direction_text(*dir),
{
    let mut s = String::from_str(text);
    s.append(dir_label(dir));
    s
}

fn exec_words(cmd: &String, resolved: &Option<String>) -> (s: String)
    ensures
        s@ == exec_text(cmd@, opt_text(*resolved)),
{
    match resolved {
        Some(path) => describe_exec(cmd.as_str(), Some(path.as_str())),
        None => describe_exec(cmd.as_str(), None),
    }
}

/// The category and description of an action.
pub fn describe_action(action: &Action) -> (r: (Category, String))
    ensures
        (r.0, r.1@) == action_text(*action),
{
    match action {
        Action::Exec { cmd, resolved } => (Category::Apps, exec_words(cmd, resolved)),
        Action::Spawn { cmd, resolved } => (Category::Apps, exec_words(cmd, resolved)),
        Action::CloseWindow => (Category::Windows, String::from_str("Close focused window")),
        Action::NudgeWindow(d) => (Category::Windows, with_direction("Nudge window ", d)),
        Action::PanViewport(d) => (Category::Navigation, with_direction("Pan viewport ", d)),
        Action::CenterWindow => (Category::View, String::from_str("Center focused window")),
        Action::CenterNearest(d) => (
            Category::Navigation,
            with_direction("Focus nearest window ", d),
        ),
        Action::CycleWindows { backward } => (
            Category::Navigation,
            if *backward {
                String::from_str("Cycle windows (reverse)")
            } else {
                String::from_str("Cycle windows")
            },
        ),
        Action::HomeToggle => (Category::View, String::from_str("Toggle home (origin)")),
        Action::GoToPosition { x, y } => {
            let mut s = String::from_str("Jump to bookmark (");
            s.append(x.as_str());
            s.append(", ");
            s.append(y.as_str());
            s.append(")");
            (Category::Navigation, s)
        },
        Action::ZoomIn => (Category::Zoom, String::from_str("Zoom in")),
        Action::ZoomOut => (Category::Zoom, String::from_str("Zoom out")),
        Action::ZoomReset => (Category::Zoom, String::from_str("Reset zoom to 1.0")),
        Action::ZoomToFit => (Category::Zoom, String::from_str("Zoom to fit all windows")),
        Action::ZoomToFitSnapped => (
            Category::Zoom,
            String::from_str("Zoom to fit snapped cluster"),
        ),
        Action::ToggleFullscreen => (Category::View, String::from_str("Toggle fullscreen")),
        Action::FitWindow => (Category::Windows, String::from_str("Fit window to viewport")),
        Action::FitWindowSnapped => (Category::Windows, String::from_str("Fit snapped cluster")),
        Action::SendToOutput(d) => {
            let mut s = with_direction("Send window to ", d);
            s.append(" output");
            (Category::Windows, s)
        },
        Action::FocusCenter => (
            Category::View,
            String::from_str("Focus window at viewport center"),
        ),
        Action::ReloadConfig => (Category::System, String::from_str("Reload config")),
        Action::ToggleHelp => (Category::System, String::from_str("Show / hide this help")),
        Action::Quit => (Category::System, String::from_str("Quit driftwm")),
    }
}

/// Characters that separate words: those with the Unicode property
/// `White_Space`.
pub open spec fn white_space(c: char) -> bool {
    ||| '\u{9}' <= c <= '\u{d}'
    ||| c == ' '
    ||| c == '\u{85}'
    ||| c == '\u{a0}'
    ||| c == '\u{1680}'
    ||| '\u{2000}' <= c <= '\u{200a}'
    ||| c == '\u{2028}'
    ||| c == '\u{2029}'
    ||| c == '\u{202f}'
    ||| c == '\u{205f}'
    ||| c == '\u{3000}'
}

fn is_white_space(c: char) -> (r: bool)
    ensures
        r == white_space(c),
{
    ('\u{9}' <= c && c <= '\u{d}') || c == ' ' || c == '\u{85}' || c == '\u{a0}' || c == '\u{1680}'
        || ('\u{2000}' <= c && c <= '\u{200a}') || c == '\u{2028}' || c == '\u{2029}' || c
        == '\u{202f}' || c == '\u{205f}' || c == '\u{3000}'
}

/// `word` is the first word of `text`: what stands between the leading white
/// space and the next.
pub open spec fn first_word(text: Seq<char>, word: Seq<char>) -> bool {
    exists|a: int, b: int|
        #![trigger text.subrange(a, b)]
        0 <= a <= b <= text.len() && word == text.subrange(a, b) && (forall|k: int|
            0 <= k < a ==> white_space(#[trigger] text[k])) && (forall|k: int|
            a <= k < b ==> !white_space(#[trigger] text[k])) && (b < text.len() ==> white_space(
            text[b],
        )) && (a == b ==> b == text.len())
}

/// The program a command runs: its first word, empty if it has none.
pub fn program_of(cmd: &str) -> (prog: String)
    ensures
        first_word(cmd@, prog@),
{
    let chars = chars_of(cmd);
    let mut a: usize = 0;
    while a < chars.len() && is_white_space(chars[a])
        invariant
            a <= chars.len(),
            forall|k: int| 0 <= k < a ==> white_space(#[trigger] chars@[k]),
        decreases chars.len() - a,
    {
        a = a + 1;
    }
    let mut b: usize = a;
    while b < chars.len() && !is_white_space(chars[b])
        invariant
            a <= b <= chars.len(),
            forall|k: int| a <= k < b ==> !white_space(#[trigger] chars@[k]),
        decreases chars.len() - b,
    {
        b = b + 1;
    }
    let word = vstd::slice::slice_subrange(chars.as_slice(), a, b);
    assert(word@ == cmd@.subrange(a as int, b as int));
    crate::text::string_of(word)
}

/// A place a program could be at, in the order of the search path.
pub struct PathCandidate {
    pub path: String,
    /// There is a file there that may be run.
    pub executable_file: bool,
}

/// `k` is the first candidate that may be run.
pub open spec fn first_executable(candidates: Seq<PathCandidate>, k: int) -> bool {
    &&& 0 <= k < candidates.len()
    &&& candidates[k].executable_file
    &&& forall|j: int| 0 <= j < k ==> !(#[trigger] candidates[j]).executable_file
}

/// A bare program name: not empty, and not a path.
pub open spec fn bare(prog: Seq<char>) -> bool {
    prog.len() > 0 && !prog.contains('/')
}

/// The first place on the search path where a program may be run. Empty names
/// and explicit paths are not looked up.
pub fn resolve_on_path(prog: &str, candidates: &[PathCandidate]) -> (path: Option<String>)
    ensures
        match path {
            Some(p) => bare(prog@) && exists|k: int| #[trigger]
                first_executable(candidates@, k) && p@ == candidates@[k].path@,
            None => !bare(prog@) || forall|k: int|
                0 <= k < candidates@.len() ==> !(#[trigger] candidates@[k]).executable_file,
        },
{
    let chars = chars_of(prog);
    if chars.len() == 0 {
        return None;
    }
    let mut i: usize = 0;
    while i < chars.len()
        invariant
            i <= chars.len(),
            chars@ == prog@,
            forall|k: int| 0 <= k < i ==> chars@[k] != '/',
        decreases chars.len() - i,
    {
        if chars[i] == '/' {
            assert(prog@[i as int] == '/');
            return None;
        }
        i = i + 1;
    }
    let mut k: usize = 0;
    while k < candidates.len()
        invariant
            k <= candidates.len(),
            bare(prog@),
            forall|j: int| 0 <= j < k ==> !(#[trigger] candidates@[j]).executable_file,
        decreases candidates.len() - k,
    {
        if candidates[k].executable_file {
            assert(first_executable(candidates@, k as int));
            return Some(candidates[k].path.clone());
        }
        k = k + 1;
    }
    None
}

/// Modifiers stand before the key, each once, in the order Super, Ctrl, Alt, Shift;
/// without any a binding is its key.
pub proof fn law_modifiers_stand_in_order(m: Modifiers, key: Seq<char>)
    ensures
        m.logo ==> combo_text(m, key) == "Super"@ + " + "@ + combo_text(
            Modifiers { logo: false, ..m },
            key,
        ),
        !m.logo && m.ctrl ==> combo_text(m, key) == "Ctrl"@ + " + "@ + combo_text(
            Modifiers { ctrl: false, ..m },
            key,
        ),
        !m.logo && !m.ctrl && m.alt ==> combo_text(m, key) == "Alt"@ + " + "@ + combo_text(
            Modifiers { alt: false, ..m },
            key,
        ),
        !m.logo && !m.ctrl && !m.alt && m.shift ==> combo_text(m, key) == "Shift"@ + " + "@ + key,
        !m.logo && !m.ctrl && !m.alt && !m.shift ==> combo_text(m, key) == key,
{
    assert(m.logo ==> combo_text(m, key) =~= "Super"@ + " + "@ + combo_text(
        Modifiers { logo: false, ..m },
        key,
    ));
    assert(!m.logo && m.ctrl ==> combo_text(m, key) =~= "Ctrl"@ + " + "@ + combo_text(
        Modifiers { ctrl: false, ..m },
        key,
    ));
    assert(!m.logo && !m.ctrl && m.alt ==> combo_text(m, key) =~= "Alt"@ + " + "@ + combo_text(
        Modifiers { alt: false, ..m },
        key,
    ));
    assert(!m.logo && !m.ctrl && !m.alt && m.shift ==> combo_text(m, key) =~= "Shift"@ + " + "@
        + key);
    assert(!m.logo && !m.ctrl && !m.alt && !m.shift ==> combo_text(m, key) =~= key);
}

/// A key without a better name keeps its own; one of a single character is put in
/// upper case.
pub proof fn law_keys_keep_their_names(raw: Seq<char>)
    requires
        raw != "Return"@ && raw != "equal"@ && raw != "minus"@ && raw != "plus"@ && raw
            != "space"@,
        raw != "Prior"@ && raw != "Next"@ && raw != "Up"@ && raw != "Down"@ && raw != "Left"@
            && raw != "Right"@,
    ensures
        raw.len() != 1 ==> key_label(raw) == raw,
        raw.len() == 1 ==> key_label(raw) == uppercase_of(raw),
{
}

/// No two directions are called the same, and an action that has a direction says
/// it.
pub proof fn law_actions_say_their_direction(d: Direction, e: Direction)
    ensures
        direction_text(d) == direction_text(e) ==> d == e,
        crate::text::ends_with(action_text(Action::NudgeWindow(d)).1, direction_text(d)),
        crate::text::ends_with(action_text(Action::PanViewport(d)).1, direction_text(d)),
        crate::text::ends_with(action_text(Action::CenterNearest(d)).1, direction_text(d)),
        crate::text::ends_with(
            action_text(Action::SendToOutput(d)).1,
            direction_text(d) + " output"@,
        ),
{
    reveal_strlit("up");
    reveal_strlit("down");
    reveal_strlit("left");
    reveal_strlit("right");
    reveal_strlit("up-left");
    reveal_strlit("up-right");
    reveal_strlit("down-left");
    reveal_strlit("down-right");
    let (a, b) = (direction_text(d), direction_text(e));
    if a == b {
        assert(a.len() == b.len());
        assert(a[0] == b[0]);
        assert(a[a.len() - 1] == b[b.len() - 1]);
    }
    crate::text::law_texts_begin_and_end("Nudge window "@, a, a);
    crate::text::law_texts_begin_and_end("Pan viewport "@, a, a);
    crate::text::law_texts_begin_and_end("Focus nearest window "@, a, a);
    let tail = a + " output"@;
    assert(action_text(Action::SendToOutput(d)).1 =~= "Send window to "@ + tail);
    crate::text::law_texts_begin_and_end("Send window to "@, tail, tail);
}

/// A command is described by itself and, where its program was found, by the place
/// of that at the end. A bookmark names its coordinates, the horizontal one first.
pub proof fn law_descriptions_hold_what_they_describe(
    cmd: Seq<char>,
    path: Seq<char>,
    x: String,
    y: String,
)
    ensures
        crate::text::ends_with(exec_text(cmd, None), cmd),
        crate::text::starts_with(exec_text(cmd, Some(path)), exec_text(cmd, None)),
        crate::text::ends_with(exec_text(cmd, Some(path)), path),
        crate::text::ends_with(
            action_text(Action::GoToPosition { x, y }).1,
            x@ + ", "@ + y@ + ")"@,
        ),
{
    crate::text::law_texts_begin_and_end("Run "@, cmd, cmd);
    let found = exec_text(cmd, Some(path));
    crate::text::law_texts_begin_and_end("Run "@ + cmd + "   ·   "@, path, path);
    assert(found =~= exec_text(cmd, None) + ("   ·   "@ + path));
    crate::text::law_texts_begin_and_end(exec_text(cmd, None), "   ·   "@ + path, path);
    let at = x@ + ", "@ + y@ + ")"@;
    assert(action_text(Action::GoToPosition { x, y }).1 =~= "Jump to bookmark ("@ + at);
    crate::text::law_texts_begin_and_end("Jump to bookmark ("@, at, at);
}

/// A text has one first word, and no white space in it.
pub proof fn law_one_first_word(text: Seq<char>, a: Seq<char>, b: Seq<char>, k: int)
    requires
        first_word(text, a),
        first_word(text, b),
    ensures
        a == b,
        0 <= k < a.len() ==> !white_space(a[k]),
{
    let (i, j) = choose|i: int, j: int|
        #![trigger text.subrange(i, j)]
        0 <= i <= j <= text.len() && a == text.subrange(i, j) && (forall|k: int|
            0 <= k < i ==> white_space(#[trigger] text[k])) && (forall|k: int|
            i <= k < j ==> !white_space(#[trigger] text[k])) && (j < text.len() ==> white_space(
            text[j],
        )) && (i == j ==> j == text.len());
    let (p, q) = choose|p: int, q: int|
        #![trigger text.subrange(p, q)]
        0 <= p <= q <= text.len() && b == text.subrange(p, q) && (forall|k: int|
            0 <= k < p ==> white_space(#[trigger] text[k])) && (forall|k: int|
            p <= k < q ==> !white_space(#[trigger] text[k])) && (q < text.len() ==> white_space(
            text[q],
        )) && (p == q ==> q == text.len());
    if i < p {
        assert(white_space(text[i]));
    }
    if p < i {
        assert(white_space(text[p]));
    }
    assert(i == p);
    if j < q {
        assert(!white_space(text[j]));
    }
    if q < j {
        assert(!white_space(text[q]));
    }
    if 0 <= k < a.len() {
        assert(!white_space(text[i + k]));
    }
}

/// Cycling backward is described as cycling forward is, with a word on its direction
/// behind.
pub proof fn law_backward_cycling_says_so()
    ensures
        action_text(Action::CycleWindows { backward: true }).1 == action_text(
            Action::CycleWindows { backward: false },
        ).1 + " (reverse)"@,
{
    reveal_strlit("Cycle windows (reverse)");
    reveal_strlit("Cycle windows");
    reveal_strlit(" (reverse)");
    assert("Cycle windows (reverse)"@ =~= "Cycle windows"@ + " (reverse)"@);
}

/// Programs stand among the applications, what moves the view along the canvas under
/// navigation, every zoom under zoom, and what is about the compositor under system.
pub proof fn law_actions_stand_in_their_section(
    d: Direction,
    backward: bool,
    x: String,
    y: String,
    cmd: String,
    resolved: Option<String>,
)
    ensures
        action_text(Action::Exec { cmd, resolved }) == action_text(
            Action::Spawn { cmd, resolved },
        ),
        action_text(Action::Exec { cmd, resolved }).0 is Apps,
        action_text(Action::PanViewport(d)).0 is Navigation,
        action_text(Action::CenterNearest(d)).0 is Navigation,
        action_text(Action::CycleWindows { backward }).0 is Navigation,
        action_text(Action::GoToPosition { x, y }).0 is Navigation,
        action_text(Action::CloseWindow).0 is Windows,
        action_text(Action::NudgeWindow(d)).0 is Windows,
        action_text(Action::FitWindow).0 is Windows,
        action_text(Action::FitWindowSnapped).0 is Windows,
        action_text(Action::SendToOutput(d)).0 is Windows,
        action_text(Action::CenterWindow).0 is View,
        action_text(Action::HomeToggle).0 is View,
        action_text(Action::ToggleFullscreen).0 is View,
        action_text(Action::FocusCenter).0 is View,
        action_text(Action::ZoomIn).0 is Zoom,
        action_text(Action::ZoomOut).0 is Zoom,
        action_text(Action::ZoomReset).0 is Zoom,
        action_text(Action::ZoomToFit).0 is Zoom,
        action_text(Action::ZoomToFitSnapped).0 is Zoom,
        action_text(Action::ReloadConfig).0 is System,
        action_text(Action::ToggleHelp).0 is System,
        action_text(Action::Quit).0 is System,
{
}

} // verus!
