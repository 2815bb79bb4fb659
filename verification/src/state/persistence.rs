//! The state file: when it is written, what it says, and what is read back.
//!
//! Launchers, status bars and scripts learn the viewport and the windows from it.
//! It is written when something in it has changed, ten times a second at most.
//! Numbers come and go as text.

use crate::names::{Named, NamedMap};
use crate::text::{chars_of, ends_with, has_prefix, has_suffix, same_text, starts_with, string_of};
use vstd::prelude::*;
use vstd::string::StringExecFns;

verus! {

/// Nanoseconds between two writes.
pub const WRITE_INTERVAL: u128 = 100_000_000;

/// What the state file last said. `V` is an output's viewport.
pub struct StateFile<V> {
    pub cameras: NamedMap<V>,
    pub layout: String,
    pub window_count: usize,
    pub layer_count: usize,
    /// Nanoseconds.
    pub last_write: u128,
}

/// The viewports with those of some outputs brought up to date.
pub open spec fn with_cameras<V>(
    cameras: Map<Seq<char>, V>,
    outputs: Seq<Named<V>>,
) -> Map<Seq<char>, V>
    decreases outputs.len(),
{
    if outputs.len() == 0 {
        cameras
    } else {
        with_cameras(cameras, outputs.drop_last()).insert(
            outputs.last().name@,
            outputs.last().value,
        )
    }
}

impl<V: Copy> StateFile<V> {
    pub open spec fn wf(self) -> bool {
        self.cameras.wf()
    }

    /// Whether an output's viewport is not as the file says. `moved` tells of an
    /// output the file knows whether its viewport has moved since.
    pub open spec fn output_changed(self, output: Named<V>, moved: bool) -> bool {
        !self.cameras@.dom().contains(output.name@) || moved
    }

    /// Whether something is not as the file says.
    pub open spec fn dirty(
        self,
        outputs: Seq<Named<V>>,
        moved: Seq<bool>,
        layout: Seq<char>,
        window_count: usize,
        layer_count: usize,
    ) -> bool {
        ||| self.layout@ != layout
        ||| self.window_count != window_count
        ||| self.layer_count != layer_count
        ||| exists|i: int|
            0 <= i < outputs.len() && #[trigger] self.output_changed(outputs[i], moved[i])
    }

    fn any_output_changed(&self, outputs: &[Named<V>], moved: &[bool]) -> (r: bool)
        requires
            self.wf(),
            moved@.len() == outputs@.len(),
        ensures
            r == exists|i: int|
                0 <= i < outputs@.len() && #[trigger] self.output_changed(outputs@[i], moved@[i]),
    {
        let mut i: usize = 0;
        while i < outputs.len()
            invariant
                self.wf(),
                moved@.len() == outputs@.len(),
                i <= outputs@.len(),
                forall|k: int|
                    0 <= k < i ==> !#[trigger] self.output_changed(outputs@[k], moved@[k]),
            decreases outputs.len() - i,
        {
            if moved[i] || !self.cameras.contains(outputs[i].name.as_str()) {
                assert(self.output_changed(outputs@[i as int], moved@[i as int]));
                return true;
            }
            i = i + 1;
        }
        false
    }

    /// Whether the file is to be written now: something is not as it says, and
    /// the last write is long enough ago. If so, account is kept of what it will
    /// say.
    pub fn write_state_file_if_dirty(
        &mut self,
        outputs: &[Named<V>],
        moved: &[bool],
        layout: &str,
        window_count: usize,
        layer_count: usize,
        now: u128,
    ) -> (write: bool)
        requires
            old(self).wf(),
            moved@.len() == outputs@.len(),
        ensures
            final(self).wf(),
            write == (old(self).dirty(outputs@, moved@, layout@, window_count, layer_count) && now
                - old(self).last_write >= WRITE_INTERVAL),
            !write ==> *final(self) == *old(self),
            write ==> {
                &&& final(self).cameras@ == with_cameras(old(self).cameras@, outputs@)
                &&& final(self).layout@ == layout@
                &&& final(self).window_count == window_count
                &&& final(self).layer_count == layer_count
                &&& final(self).last_write == now
            },
    {
        let dirty = !same_text(self.layout.as_str(), layout) || self.window_count != window_count
            || self.layer_count != layer_count || self.any_output_changed(outputs, moved);
        if !dirty {
            return false;
        }
        if now < self.last_write || now - self.last_write < WRITE_INTERVAL {
            return false;
        }
        self.window_count = window_count;
        self.layer_count = layer_count;
        self.layout = layout.to_owned();
        self.last_write = now;
        let mut i: usize = 0;
        assert(outputs@.subrange(0, 0).len() == 0);
        while i < outputs.len()
            invariant
                i <= outputs@.len(),
                self.wf(),
                self.cameras@ == with_cameras(
                    old(self).cameras@,
                    outputs@.subrange(0, i as int),
                ),
                self.layout@ == layout@,
                self.window_count == window_count,
                self.layer_count == layer_count,
                self.last_write == now,
            decreases outputs.len() - i,
        {
            proof {
                let next = outputs@.subrange(0, i + 1);
                assert(next.drop_last() =~= outputs@.subrange(0, i as int));
                assert(next.last() == outputs@[i as int]);
            }
            let name: String = outputs[i].name.clone();
            let value: V = outputs[i].value;
            self.cameras.insert(name, value);
            i = i + 1;
        }
        assert(outputs@.subrange(0, i as int) =~= outputs@);
        true
    }
}

/// A viewport's centre and zoom.
pub struct CenterText {
    pub x: String,
    pub y: String,
    pub zoom: String,
}

/// A window in the list: its application, and whether it has the keyboard.
pub struct AppWindow {
    pub app_id: String,
    pub focused: bool,
}

/// An output's camera and zoom.
pub struct OutputText {
    pub name: String,
    pub camera_x: String,
    pub camera_y: String,
    pub zoom: String,
}

/// The applications of the first `n` windows that have one, the focused one in
/// front.
pub open spec fn app_list(windows: Seq<AppWindow>, n: int) -> Seq<Seq<char>>
    decreases n,
{
    if n <= 0 {
        Seq::empty()
    } else {
        let init = app_list(windows, n - 1);
        let w = windows[n - 1];
        if w.app_id@.len() == 0 {
            init
        } else if w.focused {
            seq![w.app_id@] + init
        } else {
            init.push(w.app_id@)
        }
    }
}

/// The first `n` namespaces, each once, without empty ones.
pub open spec fn layer_list(namespaces: Seq<String>, n: int) -> Seq<Seq<char>>
    decreases n,
{
    if n <= 0 {
        Seq::empty()
    } else {
        let init = layer_list(namespaces, n - 1);
        let ns = namespaces[n - 1]@;
        if ns.len() == 0 || init.contains(ns) {
            init
        } else {
            init.push(ns)
        }
    }
}

/// Texts with commas between them.
pub open spec fn comma_joined(parts: Seq<Seq<char>>) -> Seq<char>
    decreases parts.len(),
{
    if parts.len() == 0 {
        Seq::empty()
    } else if parts.len() == 1 {
        parts[0]
    } else {
        comma_joined(parts.drop_last()) + seq![','] + parts.last()
    }
}

pub open spec fn list_line(key: Seq<char>, parts: Seq<Seq<char>>) -> Seq<Seq<char>> {
    if parts.len() == 0 {
        Seq::empty()
    } else {
        seq![key + comma_joined(parts)]
    }
}

/// The lines of an output.
pub open spec fn output_lines(o: OutputText) -> Seq<Seq<char>> {
    seq![
        "outputs."@ + o.name@ + ".camera_x="@ + o.camera_x@,
        "outputs."@ + o.name@ + ".camera_y="@ + o.camera_y@,
        "outputs."@ + o.name@ + ".zoom="@ + o.zoom@,
    ]
}

/// The lines of the first `n` outputs.
pub open spec fn outputs_lines(outputs: Seq<OutputText>, n: int) -> Seq<Seq<char>>
    decreases n,
{
    if n <= 0 {
        Seq::empty()
    } else {
        outputs_lines(outputs, n - 1) + output_lines(outputs[n - 1])
    }
}

pub open spec fn saved_lines(saved: Option<CenterText>) -> Seq<Seq<char>> {
    match saved {
        None => Seq::empty(),
        Some(s) => seq![
            "saved_x="@ + s.x@,
            "saved_y="@ + s.y@,
            "saved_zoom="@ + s.zoom@,
        ],
    }
}

pub open spec fn view_lines(center: CenterText, layout: Seq<char>) -> Seq<Seq<char>> {
    seq![
        "x="@ + center.x@,
        "y="@ + center.y@,
        "zoom="@ + center.zoom@,
        "layout="@ + layout,
    ]
}

/// What the file says.
pub struct StateText {
    pub center: CenterText,
    pub layout: String,
    /// The viewport to return to from the home position.
    pub saved: Option<CenterText>,
    pub windows: Vec<AppWindow>,
    /// Namespaces of layer surfaces.
    pub layers: Vec<String>,
    pub outputs: Vec<OutputText>,
}

/// The lines of the file.
pub open spec fn file_lines(state: StateText) -> Seq<Seq<char>> {
    view_lines(state.center, state.layout@) + saved_lines(state.saved) + list_line(
        "windows="@,
        app_list(state.windows@, state.windows@.len() as int),
    ) + list_line("layers="@, layer_list(state.layers@, state.layers@.len() as int))
        + outputs_lines(state.outputs@, state.outputs@.len() as int)
}

/// Lines as one text, each ended by a line break.
pub open spec fn unlines(lines: Seq<Seq<char>>) -> Seq<char>
    decreases lines.len(),
{
    if lines.len() == 0 {
        Seq::empty()
    } else {
        lines[0] + seq!['\n'] + unlines(lines.subrange(1, lines.len() as int))
    }
}

pub open spec fn views(texts: Seq<String>) -> Seq<Seq<char>> {
    texts.map_values(|s: String| s@)
}

fn push_line(lines: &mut Vec<String>, key: &str, value: &str)
    ensures
        views(final(lines)@) == views(old(lines)@).push(key@ + value@),
{
    let mut s = String::from_str(key);
    s.append(value);
    let ghost line = s@;
    lines.push(s);
    assert(views(lines@) =~= views(old(lines)@).push(line));
}

fn join_commas(parts: &Vec<String>) -> (s: String)
    ensures
        s@ == comma_joined(views(parts@)),
{
    let ghost all = views(parts@);
    let mut s = String::new();
    let mut i: usize = 0;
    assert(s@ =~= comma_joined(all.subrange(0, 0)));
    while i < parts.len()
        invariant
            i <= parts@.len(),
            all == views(parts@),
            s@ == comma_joined(all.subrange(0, i as int)),
        decreases parts.len() - i,
    {
        let ghost before = s@;
        if i > 0 {
            s.push(',');
        }
        s.append(parts[i].as_str());
        proof {
            let next = all.subrange(0, i + 1);
            assert(next.drop_last() =~= all.subrange(0, i as int));
            assert(next.last() == parts@[i as int]@);
            if i > 0 {
                assert(s@ =~= before + seq![','] + parts@[i as int]@);
            } else {
                assert(s@ =~= parts@[0]@);
            }
        }
        i = i + 1;
    }
    assert(all.subrange(0, i as int) =~= all);
    s
}

fn collect_apps(windows: &Vec<AppWindow>) -> (apps: Vec<String>)
    ensures
        views(apps@) == app_list(windows@, windows@.len() as int),
{
    let mut apps: Vec<String> = Vec::new();
    let mut i: usize = 0;
    assert(views(apps@) =~= app_list(windows@, 0));
    while i < windows.len()
        invariant
            i <= windows@.len(),
            views(apps@) == app_list(windows@, i as int),
        decreases windows.len() - i,
    {
        let ghost before = views(apps@);
        let id = windows[i].app_id.clone();
        let ghost text = id@;
        if !same_text(id.as_str(), "") {
            assert(text.len() > 0) by {
                reveal_strlit("");
                if text.len() == 0 {
                    assert(text =~= ""@);
                }
            }
            if windows[i].focused {
                apps.insert(0, id);
                assert(views(apps@) =~= seq![text] + before);
            } else {
                apps.push(id);
                assert(views(apps@) =~= before.push(text));
            }
        } else {
            assert(text.len() == 0) by {
                reveal_strlit("");
            }
        }
        i = i + 1;
    }
    apps
}

fn holds_text(list: &Vec<String>, text: &str) -> (r: bool)
    ensures
        r == views(list@).contains(text@),
{
    let ghost all = views(list@);
    let mut i: usize = 0;
    while i < list.len()
        invariant
            i <= list@.len(),
            all == views(list@),
            forall|k: int| 0 <= k < i ==> all[k] != text@,
        decreases list.len() - i,
    {
        assert(all[i as int] == list@[i as int]@);
        if same_text(list[i].as_str(), text) {
            return true;
        }
        i = i + 1;
    }
    false
}

fn collect_layers(namespaces: &Vec<String>) -> (layers: Vec<String>)
    ensures
        views(layers@) == layer_list(namespaces@, namespaces@.len() as int),
{
    let mut layers: Vec<String> = Vec::new();
    let mut i: usize = 0;
    assert(views(layers@) =~= layer_list(namespaces@, 0));
    while i < namespaces.len()
        invariant
            i <= namespaces@.len(),
            views(layers@) == layer_list(namespaces@, i as int),
        decreases namespaces.len() - i,
    {
        let ghost before = views(layers@);
        let ns = namespaces[i].clone();
        let ghost text = ns@;
        proof {
            reveal_strlit("");
            assert(text.len() == 0 <==> text =~= ""@);
        }
        if !same_text(ns.as_str(), "") && !holds_text(&layers, ns.as_str()) {
            layers.push(ns);
            assert(views(layers@) =~= before.push(text));
        }
        i = i + 1;
    }
    layers
}

fn push_output(lines: &mut Vec<String>, o: &OutputText)
    ensures
        views(final(lines)@) == views(old(lines)@) + output_lines(*o),
{
    let ghost before = views(lines@);
    let mut key = String::from_str("outputs.");
    key.append(o.name.as_str());
    let mut x = key.clone();
    x.append(".camera_x=");
    push_line(lines, x.as_str(), o.camera_x.as_str());
    let mut y = key.clone();
    y.append(".camera_y=");
    push_line(lines, y.as_str(), o.camera_y.as_str());
    key.append(".zoom=");
    push_line(lines, key.as_str(), o.zoom.as_str());
    assert(views(lines@) =~= before + output_lines(*o));
}

fn join_lines(lines: &Vec<String>) -> (text: String)
    ensures
        text@ == unlines(views(lines@)),
{
    let ghost all = views(lines@);
    let mut text = String::new();
    let mut i: usize = 0;
    assert(all.subrange(0, all.len() as int) =~= all);
    assert(text@ + unlines(all) =~= unlines(all));
    while i < lines.len()
        invariant
            i <= lines@.len(),
            all == views(lines@),
            text@ + unlines(all.subrange(i as int, all.len() as int)) == unlines(all),
        decreases lines.len() - i,
    {
        let ghost before = text@;
        let ghost rest = all.subrange(i as int, all.len() as int);
        text.append(lines[i].as_str());
        text.push('\n');
        proof {
            assert(rest[0] == lines@[i as int]@);
            assert(rest.subrange(1, rest.len() as int) =~= all.subrange(i + 1, all.len() as int));
            assert(text@ + unlines(all.subrange(i + 1, all.len() as int)) =~= before + unlines(
                rest,
            ));
        }
        i = i + 1;
    }
    assert(all.subrange(i as int, all.len() as int).len() == 0);
    assert(text@ =~= unlines(all));
    text
}

/// The text of the file.
pub fn state_file_text(state: &StateText) -> (text: String)
    ensures
        text@ == unlines(file_lines(*state)),
{
    let mut lines: Vec<String> = Vec::new();
    push_line(&mut lines, "x=", state.center.x.as_str());
    push_line(&mut lines, "y=", state.center.y.as_str());
    push_line(&mut lines, "zoom=", state.center.zoom.as_str());
    push_line(&mut lines, "layout=", state.layout.as_str());
    let ghost head = view_lines(state.center, state.layout@);
    assert(views(lines@) =~= head);
    let ghost saved = saved_lines(state.saved);
    if let Some(s) = &state.saved {
        push_line(&mut lines, "saved_x=", s.x.as_str());
        push_line(&mut lines, "saved_y=", s.y.as_str());
        push_line(&mut lines, "saved_zoom=", s.zoom.as_str());
    }
    assert(views(lines@) =~= head + saved);
    let apps = collect_apps(&state.windows);
    let ghost app_line = list_line("windows="@, views(apps@));
    if apps.len() > 0 {
        let joined = join_commas(&apps);
        push_line(&mut lines, "windows=", joined.as_str());
    }
    assert(views(lines@) =~= head + saved + app_line);
    let layers = collect_layers(&state.layers);
    let ghost layer_line = list_line("layers="@, views(layers@));
    if layers.len() > 0 {
        let joined = join_commas(&layers);
        push_line(&mut lines, "layers=", joined.as_str());
    }
    let ghost top = head + saved + app_line + layer_line;
    assert(views(lines@) =~= top);
    let mut i: usize = 0;
    assert(views(lines@) =~= top + outputs_lines(state.outputs@, 0));
    while i < state.outputs.len()
        invariant
            i <= state.outputs@.len(),
            views(lines@) == top + outputs_lines(state.outputs@, i as int),
        decreases state.outputs.len() - i,
    {
        push_output(&mut lines, &state.outputs[i]);
        assert(views(lines@) =~= top + outputs_lines(state.outputs@, i + 1));
        i = i + 1;
    }
    join_lines(&lines)
}

/// The first place of a character, from `i` on.
pub open spec fn first_index(text: Seq<char>, c: char, i: int) -> Option<int>
    decreases text.len() - i,
{
    if i < 0 || i >= text.len() {
        None
    } else if text[i] == c {
        Some(i)
    } else {
        first_index(text, c, i + 1)
    }
}

/// A line without a carriage return at its end.
pub open spec fn without_cr(line: Seq<char>) -> Seq<char> {
    if line.len() > 0 && line.last() == '\r' {
        line.drop_last()
    } else {
        line
    }
}

proof fn lemma_first_index(text: Seq<char>, c: char, i: int)
    requires
        0 <= i,
    ensures
        match first_index(text, c, i) {
            Some(k) => i <= k < text.len() && text[k] == c && forall|j: int|
                i <= j < k ==> text[j] != c,
            None => forall|j: int| i <= j < text.len() ==> text[j] != c,
        },
    decreases text.len() - i,
{
    if i < text.len() && text[i] != c {
        lemma_first_index(text, c, i + 1);
    }
}

/// The lines of a text. A line break may be preceded by a carriage return, and
/// the last line may go without; a carriage return at its end is then part of
/// it.
pub open spec fn lines_of(text: Seq<char>) -> Seq<Seq<char>>
    decreases text.len(),
{
    if text.len() == 0 {
        Seq::empty()
    } else {
        match first_index(text, '\n', 0) {
            None => seq![text],
            Some(k) => if 0 <= k < text.len() {
                seq![without_cr(text.subrange(0, k))] + lines_of(
                    text.subrange(k + 1, text.len() as int),
                )
            } else {
                Seq::empty()
            },
        }
    }
}

/// What a line about an output is about.
#[derive(Clone, Copy, Debug, PartialEq, Eq, Structural)]
pub enum FieldKey {
    CameraX,
    CameraY,
    Zoom,
}

/// A line about an output.
pub struct StateField {
    pub name: String,
    pub key: FieldKey,
    pub value: String,
}

pub struct FieldView {
    pub name: Seq<char>,
    pub key: FieldKey,
    pub value: Seq<char>,
}

impl View for StateField {
    type V = FieldView;

    open spec fn view(&self) -> FieldView {
        FieldView { name: self.name@, key: self.key, value: self.value@ }
    }
}

/// The name and the key that a text such as `NAME.camera_x` is made of.
pub open spec fn name_and_key(text: Seq<char>) -> Option<(Seq<char>, FieldKey)> {
    if ends_with(text, ".camera_x"@) {
        Some((text.subrange(0, text.len() - ".camera_x"@.len()), FieldKey::CameraX))
    } else if ends_with(text, ".camera_y"@) {
        Some((text.subrange(0, text.len() - ".camera_y"@.len()), FieldKey::CameraY))
    } else if ends_with(text, ".zoom"@) {
        Some((text.subrange(0, text.len() - ".zoom"@.len()), FieldKey::Zoom))
    } else {
        None
    }
}

/// What a line such as `outputs.NAME.camera_x=VALUE` says.
pub open spec fn field_of(line: Seq<char>) -> Option<FieldView> {
    if !starts_with(line, "outputs."@) {
        None
    } else {
        let rest = line.subrange("outputs."@.len() as int, line.len() as int);
        match first_index(rest, '=', 0) {
            None => None,
            Some(k) => match name_and_key(rest.subrange(0, k)) {
                None => None,
                Some((name, key)) => Some(
                    FieldView { name, key, value: rest.subrange(k + 1, rest.len() as int) },
                ),
            },
        }
    }
}

/// What the first `n` lines say about outputs.
pub open spec fn fields_of(lines: Seq<Seq<char>>, n: int) -> Seq<FieldView>
    decreases n,
{
    if n <= 0 {
        Seq::empty()
    } else {
        let init = fields_of(lines, n - 1);
        match field_of(lines[n - 1]) {
            Some(f) => init.push(f),
            None => init,
        }
    }
}

fn find_char(text: &[char], c: char) -> (at: Option<usize>)
    ensures
        match at {
            Some(k) => k < text@.len() && first_index(text@, c, 0) == Some(k as int),
            None => first_index(text@, c, 0) is None,
        },
{
    let mut i: usize = 0;
    while i < text.len()
        invariant
            i <= text@.len(),
            first_index(text@, c, 0) == first_index(text@, c, i as int),
        decreases text.len() - i,
    {
        if text[i] == c {
            return Some(i);
        }
        i = i + 1;
    }
    None
}

fn split_key(text: &[char]) -> (r: Option<(String, FieldKey)>)
    ensures
        match r {
            Some((name, key)) => name_and_key(text@) == Some((name@, key)),
            None => name_and_key(text@) is None,
        },
{
    let x = chars_of(".camera_x");
    if has_suffix(text, x.as_slice()) {
        let name = vstd::slice::slice_subrange(text, 0, text.len() - x.len());
        return Some((string_of(name), FieldKey::CameraX));
    }
    let y = chars_of(".camera_y");
    if has_suffix(text, y.as_slice()) {
        let name = vstd::slice::slice_subrange(text, 0, text.len() - y.len());
        return Some((string_of(name), FieldKey::CameraY));
    }
    let z = chars_of(".zoom");
    if has_suffix(text, z.as_slice()) {
        let name = vstd::slice::slice_subrange(text, 0, text.len() - z.len());
        return Some((string_of(name), FieldKey::Zoom));
    }
    None
}

fn read_field(line: &[char]) -> (field: Option<StateField>)
    ensures
        match field {
            Some(f) => field_of(line@) == Some(f@),
            None => field_of(line@) is None,
        },
{
    let prefix = chars_of("outputs.");
    if !has_prefix(line, prefix.as_slice()) {
        return None;
    }
    let rest = vstd::slice::slice_subrange(line, prefix.len(), line.len());
    match find_char(rest, '=') {
        None => None,
        Some(k) => {
            let left = vstd::slice::slice_subrange(rest, 0, k);
            let right = vstd::slice::slice_subrange(rest, k + 1, rest.len());
            match split_key(left) {
                None => None,
                Some((name, key)) => Some(StateField { name, key, value: string_of(right) }),
            }
        },
    }
}

fn trim_cr(line: &[char]) -> (r: &[char])
    ensures
        r@ == without_cr(line@),
{
    if line.len() > 0 && line[line.len() - 1] == '\r' {
        let r = vstd::slice::slice_subrange(line, 0, line.len() - 1);
        assert(r@ =~= line@.drop_last());
        r
    } else {
        line
    }
}

pub open spec fn field_views(fields: Seq<StateField>) -> Seq<FieldView> {
    fields.map_values(|f: StateField| f@)
}

proof fn lemma_fields_split(a: Seq<Seq<char>>, b: Seq<Seq<char>>, n: int)
    requires
        0 <= n <= b.len(),
    ensures
        fields_of(a + b, a.len() + n) == fields_of(a, a.len() as int) + fields_of(b, n),
    decreases n,
{
    let all = a + b;
    if n == 0 {
        lemma_fields_prefix(a, b, a.len() as int);
        assert(fields_of(all, a.len() as int) =~= fields_of(a, a.len() as int) + fields_of(b, 0));
    } else {
        lemma_fields_split(a, b, n - 1);
        assert(all[a.len() + n - 1] == b[n - 1]);
        assert(fields_of(all, a.len() + n) =~= fields_of(a, a.len() as int) + fields_of(b, n));
    }
}

proof fn lemma_fields_prefix(a: Seq<Seq<char>>, b: Seq<Seq<char>>, n: int)
    requires
        0 <= n <= a.len(),
    ensures
        fields_of(a + b, n) == fields_of(a, n),
    decreases n,
{
    if n > 0 {
        lemma_fields_prefix(a, b, n - 1);
        assert((a + b)[n - 1] == a[n - 1]);
    }
}

/// What a state file says about outputs, line by line.
pub fn read_fields(content: &str) -> (fields: Vec<StateField>)
    ensures
        field_views(fields@) == fields_of(
            lines_of(content@),
            lines_of(content@).len() as int,
        ),
{
    let chars = chars_of(content);
    let ghost all = lines_of(content@);
    let ghost mut seen: Seq<Seq<char>> = Seq::empty();
    let mut fields: Vec<StateField> = Vec::new();
    let mut start: usize = 0;
    proof {
        assert(content@.subrange(0, content@.len() as int) =~= content@);
        assert(seen + lines_of(content@) =~= all);
        assert(field_views(fields@) =~= fields_of(seen, 0));
    }
    while start < chars.len()
        invariant
            start <= chars@.len(),
            chars@ == content@,
            all == lines_of(content@),
            all == seen + lines_of(content@.subrange(start as int, content@.len() as int)),
            field_views(fields@) == fields_of(seen, seen.len() as int),
        decreases chars.len() - start,
    {
        let rest = vstd::slice::slice_subrange(chars.as_slice(), start, chars.len());
        let ghost text = content@.subrange(start as int, content@.len() as int);
        assert(rest@ =~= text);
        let ghost before = field_views(fields@);
        let ghost old_seen = seen;
        match find_char(rest, '\n') {
            Some(k) => {
                let raw = vstd::slice::slice_subrange(rest, 0, k);
                let line = trim_cr(raw);
                let field = read_field(line);
                if let Some(f) = field {
                    fields.push(f);
                }
                let next: usize = start + k + 1;
                proof {
                    seen = old_seen.push(line@);
                    assert(text.subrange(k + 1, text.len() as int) =~= content@.subrange(
                        next as int,
                        content@.len() as int,
                    ));
                    assert(lines_of(text) == seq![line@] + lines_of(
                        text.subrange(k + 1, text.len() as int),
                    ));
                    assert(all =~= seen + lines_of(
                        content@.subrange(next as int, content@.len() as int),
                    ));
                    assert(seen.last() == line@);
                    assert(seen =~= old_seen + seq![line@]);
                    lemma_fields_prefix(old_seen, seq![line@], old_seen.len() as int);
                    assert(field_views(fields@) =~= fields_of(seen, seen.len() as int));
                }
                start = next;
            },
            None => {
                let field = read_field(rest);
                if let Some(f) = field {
                    fields.push(f);
                }
                proof {
                    seen = old_seen.push(text);
                    assert(lines_of(text) == seq![text]);
                    let end = content@.subrange(content@.len() as int, content@.len() as int);
                    assert(lines_of(end) =~= Seq::empty());
                    assert(all =~= seen + lines_of(end));
                    assert(seen =~= old_seen + seq![text]);
                    lemma_fields_prefix(old_seen, seq![text], old_seen.len() as int);
                    assert(field_views(fields@) =~= fields_of(seen, seen.len() as int));
                }
                start = chars.len();
            },
        }
    }
    proof {
        let end = content@.subrange(start as int, content@.len() as int);
        assert(end.len() == 0);
        assert(lines_of(end) =~= Seq::empty());
        assert(all =~= seen);
    }
    fields
}

/// A value that a line about an output gives, as a number.
pub struct ReadField<V> {
    pub name: String,
    pub key: FieldKey,
    pub value: V,
}

/// What is known of an output's viewport.
pub struct PartView<V> {
    pub camera_x: Option<V>,
    pub camera_y: Option<V>,
    pub zoom: Option<V>,
}

/// An output's viewport.
pub struct OutputView<V> {
    pub camera_x: V,
    pub camera_y: V,
    pub zoom: V,
}

/// The last value that the first `n` fields give for a key of an output.
pub open spec fn last_value<V>(
    fields: Seq<ReadField<V>>,
    name: Seq<char>,
    key: FieldKey,
    n: int,
) -> Option<V>
    decreases n,
{
    if n <= 0 {
        None
    } else if fields[n - 1].name@ == name && fields[n - 1].key == key {
        Some(fields[n - 1].value)
    } else {
        last_value(fields, name, key, n - 1)
    }
}

/// What the first `n` fields say about an output.
pub open spec fn part_view<V>(fields: Seq<ReadField<V>>, name: Seq<char>, n: int) -> PartView<V> {
    PartView {
        camera_x: last_value(fields, name, FieldKey::CameraX, n),
        camera_y: last_value(fields, name, FieldKey::CameraY, n),
        zoom: last_value(fields, name, FieldKey::Zoom, n),
    }
}

/// An output's viewport is known: all three values are.
pub open spec fn complete<V>(p: PartView<V>) -> bool {
    p.camera_x is Some && p.camera_y is Some && p.zoom is Some
}

pub open spec fn whole_view<V>(p: PartView<V>) -> OutputView<V> {
    OutputView { camera_x: p.camera_x->0, camera_y: p.camera_y->0, zoom: p.zoom->0 }
}

fn find_value<V: Copy>(fields: &[ReadField<V>], name: &str, key: FieldKey) -> (value: Option<V>)
    ensures
        value == last_value(fields@, name@, key, fields@.len() as int),
{
    let mut n: usize = fields.len();
    while n > 0
        invariant
            n <= fields@.len(),
            last_value(fields@, name@, key, fields@.len() as int) == last_value(
                fields@,
                name@,
                key,
                n as int,
            ),
        decreases n,
    {
        if fields[n - 1].key == key && same_text(fields[n - 1].name.as_str(), name) {
            return Some(fields[n - 1].value);
        }
        n = n - 1;
    }
    None
}

/// The viewports that some fields give: those of the outputs for which all three
/// values are there. The last value of several counts.
pub fn read_all_per_output_state<V: Copy>(fields: &[ReadField<V>]) -> (known: NamedMap<
    OutputView<V>,
>)
    ensures
        known.wf(),
        forall|name: Seq<char>| #[trigger]
            known@.dom().contains(name) <==> complete(
                part_view(fields@, name, fields@.len() as int),
            ),
        forall|name: Seq<char>| #[trigger]
            known@.dom().contains(name) ==> known@[name] == whole_view(
                part_view(fields@, name, fields@.len() as int),
            ),
{
    let ghost all = fields@.len() as int;
    let mut known: NamedMap<OutputView<V>> = NamedMap::new();
    let mut i: usize = 0;
    while i < fields.len()
        invariant
            i <= fields@.len(),
            all == fields@.len(),
            known.wf(),
            forall|name: Seq<char>| #[trigger]
                known@.dom().contains(name) <==> complete(part_view(fields@, name, all))
                    && named_before(fields@, name, i as int),
            forall|name: Seq<char>| #[trigger]
                known@.dom().contains(name) ==> known@[name] == whole_view(
                    part_view(fields@, name, all),
                ),
        decreases fields.len() - i,
    {
        let ghost before = known@;
        let ghost this = fields@[i as int].name@;
        let name = fields[i].name.as_str();
        if !known.contains(name) {
            let x = find_value(fields, name, FieldKey::CameraX);
            let y = find_value(fields, name, FieldKey::CameraY);
            let z = find_value(fields, name, FieldKey::Zoom);
            if let Some(camera_x) = x {
                if let Some(camera_y) = y {
                    if let Some(zoom) = z {
                        known.push_new(name.to_owned(), OutputView { camera_x, camera_y, zoom });
                    }
                }
            }
        }
        assert forall|n: Seq<char>| #[trigger]
            known@.dom().contains(n) <==> complete(part_view(fields@, n, all)) && named_before(
            fields@,
            n,
            i + 1,
        ) by {
            assert(named_before(fields@, n, i + 1) <==> named_before(fields@, n, i as int) || n
                == this) by {
                if named_before(fields@, n, i as int) {
                    let k = choose|k: int|
                        0 <= k < i && (#[trigger] fields@[k]).name@ == n;
                    assert(fields@[k].name@ == n);
                }
                if n == this {
                    assert(fields@[i as int].name@ == n);
                }
            }
        }
        i = i + 1;
    }
    assert forall|name: Seq<char>| complete(part_view(fields@, name, all)) implies named_before(
        fields@,
        name,
        all,
    ) by {
        lemma_value_named(fields@, name, FieldKey::Zoom, all);
    }
    known
}

/// One of the first `n` fields is about an output.
pub open spec fn named_before<V>(fields: Seq<ReadField<V>>, name: Seq<char>, n: int) -> bool {
    exists|k: int| 0 <= k < n && (#[trigger] fields[k]).name@ == name
}

proof fn lemma_value_named<V>(fields: Seq<ReadField<V>>, name: Seq<char>, key: FieldKey, n: int)
    requires
        n <= fields.len(),
        last_value(fields, name, key, n) is Some,
    ensures
        named_before(fields, name, n),
    decreases n,
{
    if n > 0 {
        if fields[n - 1].name@ == name && fields[n - 1].key == key {
        } else {
            lemma_value_named(fields, name, key, n - 1);
        }
    }
}

/// A text of one line that no carriage return ends.
pub open spec fn one_line(text: Seq<char>) -> bool {
    &&& !text.contains('\n')
    &&& !text.contains('\r')
}

proof fn lemma_no_newline(line: Seq<char>, rest: Seq<char>, i: int)
    requires
        0 <= i <= line.len(),
        one_line(line),
    ensures
        first_index(line + seq!['\n'] + rest, '\n', i) == Some(line.len() as int),
    decreases line.len() - i,
{
    let text = line + seq!['\n'] + rest;
    if i < line.len() {
        assert(text[i] == line[i]);
        assert(line.contains(line[i]));
        lemma_no_newline(line, rest, i + 1);
    } else {
        assert(text[i] == '\n');
    }
}

/// Lines that are written one after another are read back as they were.
pub proof fn law_lines_are_read_back(lines: Seq<Seq<char>>)
    requires
        forall|i: int| 0 <= i < lines.len() ==> one_line(#[trigger] lines[i]),
    ensures
        lines_of(unlines(lines)) == lines,
    decreases lines.len(),
{
    if lines.len() > 0 {
        let tail = lines.subrange(1, lines.len() as int);
        let rest = unlines(tail);
        let text = lines[0] + seq!['\n'] + rest;
        assert(text == unlines(lines));
        lemma_no_newline(lines[0], rest, 0);
        assert forall|i: int| 0 <= i < tail.len() implies one_line(#[trigger] tail[i]) by {
            assert(tail[i] == lines[i + 1]);
        }
        law_lines_are_read_back(tail);
        let k = lines[0].len() as int;
        assert(text.subrange(0, k) =~= lines[0]);
        assert(text.subrange(k + 1, text.len() as int) =~= rest);
        assert(without_cr(lines[0]) == lines[0]) by {
            if lines[0].len() > 0 {
                assert(lines[0].contains(lines[0].last()));
            }
        }
        assert(lines_of(text) =~= seq![lines[0]] + tail);
        assert(seq![lines[0]] + tail =~= lines);
    } else {
        assert(lines_of(unlines(lines)) =~= lines);
    }
}

/// An output's name and values can stand in the file.
pub open spec fn storable(o: OutputText) -> bool {
    &&& one_line(o.name@)
    &&& !o.name@.contains('=')
    &&& one_line(o.camera_x@)
    &&& one_line(o.camera_y@)
    &&& one_line(o.zoom@)
}

/// What the file says about an output.
pub open spec fn output_fields(o: OutputText) -> Seq<FieldView> {
    seq![
        FieldView { name: o.name@, key: FieldKey::CameraX, value: o.camera_x@ },
        FieldView { name: o.name@, key: FieldKey::CameraY, value: o.camera_y@ },
        FieldView { name: o.name@, key: FieldKey::Zoom, value: o.zoom@ },
    ]
}

/// What the file says about the first `n` outputs.
pub open spec fn outputs_fields(outputs: Seq<OutputText>, n: int) -> Seq<FieldView>
    decreases n,
{
    if n <= 0 {
        Seq::empty()
    } else {
        outputs_fields(outputs, n - 1) + output_fields(outputs[n - 1])
    }
}

proof fn lemma_equals_sign(left: Seq<char>, value: Seq<char>, i: int)
    requires
        0 <= i <= left.len(),
        !left.contains('='),
    ensures
        first_index(left + seq!['='] + value, '=', i) == Some(left.len() as int),
    decreases left.len() - i,
{
    let text = left + seq!['='] + value;
    if i < left.len() {
        assert(text[i] == left[i]);
        assert(left.contains(left[i]));
        lemma_equals_sign(left, value, i + 1);
    } else {
        assert(text[i] == '=');
    }
}

/// A line about an output is understood.
proof fn lemma_line_understood(
    name: Seq<char>,
    suffix: Seq<char>,
    key: FieldKey,
    value: Seq<char>,
    line: Seq<char>,
)
    requires
        !name.contains('='),
        !suffix.contains('='),
        line == "outputs."@ + (name + suffix) + seq!['='] + value,
        name_and_key(name + suffix) == Some((name, key)),
    ensures
        field_of(line) == Some(FieldView { name, key, value }),
{
    let prefix = "outputs."@;
    let left = name + suffix;
    let rest = left + seq!['='] + value;
    assert(line =~= prefix + rest);
    assert(line.subrange(0, prefix.len() as int) =~= prefix);
    assert(line.subrange(prefix.len() as int, line.len() as int) =~= rest);
    assert(!left.contains('=')) by {
        if left.contains('=') {
            let i = choose|i: int| 0 <= i < left.len() && left[i] == '=';
            if i < name.len() {
                assert(name[i] == '=');
            } else {
                assert(suffix[i - name.len()] == '=');
            }
        }
    }
    lemma_equals_sign(left, value, 0);
    let k = left.len() as int;
    assert(rest.subrange(0, k) =~= left);
    assert(rest.subrange(k + 1, rest.len() as int) =~= value);
}

proof fn lemma_output_lines(o: OutputText)
    requires
        storable(o),
    ensures
        fields_of(output_lines(o), 3) == output_fields(o),
        forall|i: int| 0 <= i < 3 ==> one_line(#[trigger] output_lines(o)[i]),
{
    reveal_strlit("outputs.");
    reveal_strlit(".camera_x");
    reveal_strlit(".camera_y");
    reveal_strlit(".zoom");
    reveal_strlit(".camera_x=");
    reveal_strlit(".camera_y=");
    reveal_strlit(".zoom=");
    let n = o.name@;
    let x = n + ".camera_x"@;
    let y = n + ".camera_y"@;
    let z = n + ".zoom"@;
    assert(x.subrange(x.len() - 9, x.len() as int) =~= ".camera_x"@);
    assert(x.subrange(0, x.len() - 9) =~= n);
    assert(y.subrange(y.len() - 9, y.len() as int) =~= ".camera_y"@);
    assert(y.subrange(0, y.len() - 9) =~= n);
    assert(z.subrange(z.len() - 5, z.len() as int) =~= ".zoom"@);
    assert(z.subrange(0, z.len() - 5) =~= n);
    assert(!ends_with(y, ".camera_x"@)) by {
        assert(y[y.len() - 1] == 'y');
        if ends_with(y, ".camera_x"@) {
            assert(y.subrange(y.len() - 9, y.len() as int)[8] == 'x');
        }
    }
    assert(!ends_with(z, ".camera_x"@) && !ends_with(z, ".camera_y"@)) by {
        assert(z[z.len() - 1] == 'm');
        if ends_with(z, ".camera_x"@) {
            assert(z.subrange(z.len() - 9, z.len() as int)[8] == 'x');
        }
        if ends_with(z, ".camera_y"@) {
            assert(z.subrange(z.len() - 9, z.len() as int)[8] == 'y');
        }
    }
    let lines = output_lines(o);
    assert(lines[0] =~= "outputs."@ + x + seq!['='] + o.camera_x@);
    assert(lines[1] =~= "outputs."@ + y + seq!['='] + o.camera_y@);
    assert(lines[2] =~= "outputs."@ + z + seq!['='] + o.zoom@);
    lemma_line_understood(n, ".camera_x"@, FieldKey::CameraX, o.camera_x@, lines[0]);
    lemma_line_understood(n, ".camera_y"@, FieldKey::CameraY, o.camera_y@, lines[1]);
    lemma_line_understood(n, ".zoom"@, FieldKey::Zoom, o.zoom@, lines[2]);
    reveal_with_fuel(fields_of, 4);
    assert(fields_of(lines, 3) =~= output_fields(o));
    lemma_one_line_joined("outputs."@, n);
    lemma_one_line_joined("outputs."@ + n, ".camera_x="@);
    lemma_one_line_joined("outputs."@ + n + ".camera_x="@, o.camera_x@);
    lemma_one_line_joined("outputs."@ + n, ".camera_y="@);
    lemma_one_line_joined("outputs."@ + n + ".camera_y="@, o.camera_y@);
    lemma_one_line_joined("outputs."@ + n, ".zoom="@);
    lemma_one_line_joined("outputs."@ + n + ".zoom="@, o.zoom@);
}

proof fn lemma_one_line_joined(a: Seq<char>, b: Seq<char>)
    requires
        one_line(a),
        one_line(b),
    ensures
        one_line(a + b),
{
    let ab = a + b;
    if ab.contains('\n') {
        let i = choose|i: int| 0 <= i < ab.len() && ab[i] == '\n';
        if i < a.len() {
            assert(a[i] == '\n');
        } else {
            assert(b[i - a.len()] == '\n');
        }
    }
    if ab.contains('\r') {
        let i = choose|i: int| 0 <= i < ab.len() && ab[i] == '\r';
        if i < a.len() {
            assert(a[i] == '\r');
        } else {
            assert(b[i - a.len()] == '\r');
        }
    }
}

proof fn lemma_outputs_lines(outputs: Seq<OutputText>, n: int)
    requires
        0 <= n <= outputs.len(),
        forall|i: int| 0 <= i < outputs.len() ==> storable(#[trigger] outputs[i]),
    ensures
        fields_of(outputs_lines(outputs, n), outputs_lines(outputs, n).len() as int)
            == outputs_fields(outputs, n),
        forall|i: int|
            0 <= i < outputs_lines(outputs, n).len() ==> one_line(
                #[trigger] outputs_lines(outputs, n)[i],
            ),
    decreases n,
{
    if n > 0 {
        lemma_outputs_lines(outputs, n - 1);
        lemma_output_lines(outputs[n - 1]);
        let a = outputs_lines(outputs, n - 1);
        let b = output_lines(outputs[n - 1]);
        lemma_fields_split(a, b, 3);
        assert forall|i: int| 0 <= i < (a + b).len() implies one_line(#[trigger] (a + b)[i]) by {
            if i < a.len() {
                assert((a + b)[i] == a[i]);
            } else {
                assert((a + b)[i] == b[i - a.len()]);
            }
        }
    }
}

/// Lines that begin otherwise than those about outputs say nothing about them.
proof fn lemma_other_lines(lines: Seq<Seq<char>>, n: int)
    requires
        0 <= n <= lines.len(),
        forall|i: int|
            0 <= i < lines.len() ==> (#[trigger] lines[i]).len() > 0 && lines[i][0] != 'o',
    ensures
        fields_of(lines, n).len() == 0,
    decreases n,
{
    if n > 0 {
        lemma_other_lines(lines, n - 1);
        reveal_strlit("outputs.");
        let line = lines[n - 1];
        if starts_with(line, "outputs."@) {
            assert(line.subrange(0, 8)[0] == 'o');
        }
    }
}

/// The lines before those about outputs.
pub open spec fn head_lines(state: StateText) -> Seq<Seq<char>> {
    view_lines(state.center, state.layout@) + saved_lines(state.saved) + list_line(
        "windows="@,
        app_list(state.windows@, state.windows@.len() as int),
    ) + list_line("layers="@, layer_list(state.layers@, state.layers@.len() as int))
}

proof fn lemma_head_begins(state: StateText)
    ensures
        forall|i: int|
            0 <= i < head_lines(state).len() ==> (#[trigger] head_lines(state)[i]).len() > 0
                && head_lines(state)[i][0] != 'o',
{
    reveal_strlit("x=");
    reveal_strlit("y=");
    reveal_strlit("zoom=");
    reveal_strlit("layout=");
    reveal_strlit("saved_x=");
    reveal_strlit("saved_y=");
    reveal_strlit("saved_zoom=");
    reveal_strlit("windows=");
    reveal_strlit("layers=");
}

/// What is written about outputs is read back, whatever else the file says:
/// every output's camera and zoom, in order, and nothing else. Names and values
/// are of one line, and no name holds an equals sign.
pub proof fn law_outputs_are_read_back(state: StateText)
    requires
        forall|i: int|
            0 <= i < state.outputs@.len() ==> storable(#[trigger] state.outputs@[i]),
        forall|i: int| 0 <= i < head_lines(state).len() ==> one_line(#[trigger] head_lines(state)[i]),
    ensures
        fields_of(
            lines_of(unlines(file_lines(state))),
            lines_of(unlines(file_lines(state))).len() as int,
        ) == outputs_fields(state.outputs@, state.outputs@.len() as int),
{
    let head = head_lines(state);
    let tail = outputs_lines(state.outputs@, state.outputs@.len() as int);
    let all = file_lines(state);
    assert(all == head + tail);
    lemma_outputs_lines(state.outputs@, state.outputs@.len() as int);
    assert forall|i: int| 0 <= i < all.len() implies one_line(#[trigger] all[i]) by {
        if i < head.len() {
            assert(all[i] == head[i]);
        } else {
            assert(all[i] == tail[i - head.len()]);
        }
    }
    law_lines_are_read_back(all);
    lemma_head_begins(state);
    lemma_other_lines(head, head.len() as int);
    lemma_fields_split(head, tail, tail.len() as int);
    assert(fields_of(head, head.len() as int) =~= Seq::empty());
    assert(fields_of(all, all.len() as int) =~= outputs_fields(
        state.outputs@,
        state.outputs@.len() as int,
    ));
}

/// Once the file has been written, nothing is dirty until something changes.
pub proof fn law_written_state_is_clean<V: Copy>(
    before: StateFile<V>,
    after: StateFile<V>,
    outputs: Seq<Named<V>>,
    moved: Seq<bool>,
)
    requires
        after.cameras@ == with_cameras(before.cameras@, outputs),
        moved.len() == outputs.len(),
        forall|i: int| 0 <= i < moved.len() ==> !#[trigger] moved[i],
    ensures
        !after.dirty(outputs, moved, after.layout@, after.window_count, after.layer_count),
{
    assert forall|i: int| 0 <= i < outputs.len() implies !#[trigger] after.output_changed(
        outputs[i],
        moved[i],
    ) by {
        lemma_camera_held(before.cameras@, outputs, i);
        assert(!moved[i]);
    }
}

proof fn lemma_camera_held<V>(cameras: Map<Seq<char>, V>, outputs: Seq<Named<V>>, i: int)
    requires
        0 <= i < outputs.len(),
    ensures
        with_cameras(cameras, outputs).dom().contains(outputs[i].name@),
    decreases outputs.len(),
{
    if i < outputs.len() - 1 {
        lemma_camera_held(cameras, outputs.drop_last(), i);
    }
}

/// The list of applications is a permutation of those of all windows that have
/// one. Without an order: it holds each as often as a window has it.
pub proof fn law_every_application_is_listed(windows: Seq<AppWindow>)
    ensures
        ({
            let ids = windows.filter(|w: AppWindow| w.app_id@.len() > 0).map_values(
                |w: AppWindow| w.app_id@,
            );
            let list = app_list(windows, windows.len() as int);
            &&& list.to_multiset() == ids.to_multiset()
            &&& list.len() == windows.filter(|w: AppWindow| w.app_id@.len() > 0).len()
        }),
    decreases windows.len(),
{
    let named = |w: AppWindow| w.app_id@.len() > 0;
    let id = |w: AppWindow| w.app_id@;
    let n = windows.len() as int;
    reveal(Seq::filter);
    if n > 0 {
        let rest = windows.drop_last();
        law_every_application_is_listed(rest);
        lemma_apps_of_prefix(windows, n - 1);
        assert(windows.take(n - 1) =~= rest);
        let init = app_list(rest, n - 1);
        let kept = rest.filter(named).map_values(id);
        let last = windows[n - 1];
        if last.app_id@.len() > 0 {
            assert(windows.filter(named).map_values(id) =~= kept.push(last.app_id@));
            kept.to_multiset_ensures();
            init.to_multiset_ensures();
            vstd::seq_lib::lemma_multiset_commutative(seq![last.app_id@], init);
            vstd::seq_lib::lemma_multiset_commutative(init, seq![last.app_id@]);
            assert(init + seq![last.app_id@] =~= init.push(last.app_id@));
            assert((seq![last.app_id@] + init).to_multiset() =~= init.push(
                last.app_id@,
            ).to_multiset());
        }
    } else {
        assert(windows.filter(named).map_values(id) =~= app_list(windows, 0));
    }
}

proof fn lemma_apps_of_prefix(windows: Seq<AppWindow>, n: int)
    requires
        0 <= n <= windows.len(),
    ensures
        app_list(windows, n) == app_list(windows.take(n), n),
    decreases n,
{
    if n > 0 {
        lemma_apps_of_prefix(windows, n - 1);
        lemma_apps_of_prefix(windows.take(n), n - 1);
        assert(windows.take(n).take(n - 1) =~= windows.take(n - 1));
    }
}

/// The applications of focused windows come first, the others follow in their
/// order.
pub proof fn law_focused_application_comes_first(windows: Seq<AppWindow>)
    ensures
        app_list(windows, windows.len() as int) == windows.filter(
            |w: AppWindow| w.app_id@.len() > 0 && w.focused,
        ).map_values(|w: AppWindow| w.app_id@).reverse() + windows.filter(
            |w: AppWindow| w.app_id@.len() > 0 && !w.focused,
        ).map_values(|w: AppWindow| w.app_id@),
    decreases windows.len(),
{
    let focused = |w: AppWindow| w.app_id@.len() > 0 && w.focused;
    let others = |w: AppWindow| w.app_id@.len() > 0 && !w.focused;
    let id = |w: AppWindow| w.app_id@;
    let n = windows.len() as int;
    reveal(Seq::filter);
    if n > 0 {
        let rest = windows.drop_last();
        law_focused_application_comes_first(rest);
        lemma_apps_of_prefix(windows, n - 1);
        assert(windows.take(n - 1) =~= rest);
        assert(app_list(windows, n) =~= windows.filter(focused).map_values(id).reverse()
            + windows.filter(others).map_values(id));
    } else {
        assert(app_list(windows, n) =~= windows.filter(focused).map_values(id).reverse()
            + windows.filter(others).map_values(id));
    }
}

/// If exactly one window is focused and it has an application, the list begins
/// with that.
pub proof fn law_list_begins_with_the_focused(windows: Seq<AppWindow>, f: int)
    requires
        0 <= f < windows.len(),
        windows[f].app_id@.len() > 0,
        forall|i: int| 0 <= i < windows.len() ==> ((#[trigger] windows[i]).focused <==> i == f),
    ensures
        app_list(windows, windows.len() as int).len() > 0,
        app_list(windows, windows.len() as int)[0] == windows[f].app_id@,
{
    lemma_focused_in_front(windows, f, windows.len() as int);
}

proof fn lemma_focused_in_front(windows: Seq<AppWindow>, f: int, n: int)
    requires
        0 <= f < n <= windows.len(),
        windows[f].app_id@.len() > 0,
        forall|i: int| 0 <= i < windows.len() ==> ((#[trigger] windows[i]).focused <==> i == f),
    ensures
        app_list(windows, n).len() > 0,
        app_list(windows, n)[0] == windows[f].app_id@,
    decreases n,
{
    if f < n - 1 {
        lemma_focused_in_front(windows, f, n - 1);
        assert(!windows[n - 1].focused);
    } else {
        assert(windows[f].focused);
    }
}

/// The list of layers holds every namespace that is not empty, once.
pub proof fn law_every_layer_is_listed_once(namespaces: Seq<String>, n: int)
    requires
        0 <= n <= namespaces.len(),
    ensures
        layer_list(namespaces, n).no_duplicates(),
        forall|text: Seq<char>| #[trigger]
            layer_list(namespaces, n).contains(text) <==> text.len() > 0 && exists|i: int|
                0 <= i < n && (#[trigger] namespaces[i])@ == text,
    decreases n,
{
    let all = layer_list(namespaces, n);
    if n > 0 {
        law_every_layer_is_listed_once(namespaces, n - 1);
        let init = layer_list(namespaces, n - 1);
        let ns = namespaces[n - 1]@;
        assert forall|text: Seq<char>| #[trigger] all.contains(text) <==> text.len() > 0 && exists|
            i: int,
        |
            0 <= i < n && (#[trigger] namespaces[i])@ == text by {
            if all.contains(text) {
                let k = choose|k: int| 0 <= k < all.len() && all[k] == text;
                if k < init.len() {
                    assert(init[k] == text);
                    assert(init.contains(text));
                } else {
                    assert(namespaces[n - 1]@ == text);
                }
            }
            if text.len() > 0 && exists|i: int| 0 <= i < n && (#[trigger] namespaces[i])@ == text {
                let i = choose|i: int| 0 <= i < n && (#[trigger] namespaces[i])@ == text;
                if i < n - 1 {
                    assert(init.contains(text));
                    let k = choose|k: int| 0 <= k < init.len() && init[k] == text;
                    assert(all[k] == text);
                } else if init.contains(text) {
                    let k = choose|k: int| 0 <= k < init.len() && init[k] == text;
                    assert(all[k] == text);
                } else {
                    assert(all[init.len() as int] == text);
                }
            }
        }
    }
}

/// Of two listed namespaces, the first one occurs before any occurrence of the
/// other.
pub proof fn law_layers_keep_their_order(
    namespaces: Seq<String>,
    n: int,
    a: int,
    b: int,
    q: int,
) -> (p: int)
    requires
        0 <= n <= namespaces.len(),
        0 <= a < b < layer_list(namespaces, n).len(),
        0 <= q < n,
        namespaces[q]@ == layer_list(namespaces, n)[b],
    ensures
        0 <= p < q,
        namespaces[p]@ == layer_list(namespaces, n)[a],
    decreases n,
{
    let init = layer_list(namespaces, n - 1);
    law_every_layer_is_listed_once(namespaces, n - 1);
    if b < init.len() {
        if q == n - 1 {
            assert(init.contains(init[b]));
            let r = choose|r: int| 0 <= r < n - 1 && (#[trigger] namespaces[r])@ == init[b];
            law_layers_keep_their_order(namespaces, n - 1, a, b, r)
        } else {
            law_layers_keep_their_order(namespaces, n - 1, a, b, q)
        }
    } else {
        if q < n - 1 {
            assert(init.contains(namespaces[n - 1]@));
        }
        assert(init.contains(init[a]));
        choose|p: int| 0 <= p < n - 1 && (#[trigger] namespaces[p])@ == init[a]
    }
}

/// Joining two lists puts a comma between what each is joined to; a single text
/// stays as it is.
pub proof fn law_commas_stand_between(a: Seq<Seq<char>>, b: Seq<Seq<char>>, text: Seq<char>)
    ensures
        comma_joined(seq![text]) == text,
        a.len() > 0 && b.len() > 0 ==> comma_joined(a + b) == comma_joined(a) + seq![',']
            + comma_joined(b),
    decreases b.len(),
{
    if a.len() > 0 && b.len() > 0 {
        assert((a + b).drop_last() =~= a + b.drop_last());
        assert((a + b).last() == b.last());
        if b.len() == 1 {
            assert(a + b.drop_last() =~= a);
        } else {
            law_commas_stand_between(a, b.drop_last(), text);
            assert(comma_joined(a + b) =~= comma_joined(a) + seq![','] + comma_joined(b));
        }
    }
}

/// The file says the viewport and the layout, then the saved viewport where there
/// is one, then the applications and the layers where there are any, then every
/// output's camera and zoom. Each line is a key and what it is about.
pub proof fn law_file_says_its_state(state: StateText)
    ensures
        ({
            let lines = file_lines(state);
            let apps = app_list(state.windows@, state.windows@.len() as int);
            let layers = layer_list(state.layers@, state.layers@.len() as int);
            let outputs = state.outputs@;
            let a: int = if state.saved is Some {
                7
            } else {
                4
            };
            let b: int = a + if apps.len() > 0 {
                1int
            } else {
                0
            };
            let c: int = b + if layers.len() > 0 {
                1int
            } else {
                0
            };
            &&& lines.len() == c + 3 * outputs.len()
            &&& lines[0] == "x="@ + state.center.x@
            &&& lines[1] == "y="@ + state.center.y@
            &&& lines[2] == "zoom="@ + state.center.zoom@
            &&& lines[3] == "layout="@ + state.layout@
            &&& state.saved matches Some(s) ==> lines[4] == "saved_x="@ + s.x@ && lines[5]
                == "saved_y="@ + s.y@ && lines[6] == "saved_zoom="@ + s.zoom@
            &&& apps.len() > 0 ==> lines[a] == "windows="@ + comma_joined(apps)
            &&& layers.len() > 0 ==> lines[b] == "layers="@ + comma_joined(layers)
            &&& forall|i: int|
                0 <= i < outputs.len() ==> {
                    let o = #[trigger] outputs[i];
                    &&& lines[c + 3 * i] == "outputs."@ + o.name@ + ".camera_x="@ + o.camera_x@
                    &&& lines[c + 3 * i + 1] == "outputs."@ + o.name@ + ".camera_y="@ + o.camera_y@
                    &&& lines[c + 3 * i + 2] == "outputs."@ + o.name@ + ".zoom="@ + o.zoom@
                }
        }),
{
    let lines = file_lines(state);
    let outputs = state.outputs@;
    let head = head_lines(state);
    let tail = outputs_lines(outputs, outputs.len() as int);
    assert(lines == head + tail);
    lemma_outputs_count(outputs, outputs.len() as int);
    assert forall|i: int| 0 <= i < outputs.len() implies {
        let o = #[trigger] outputs[i];
        let c = head.len();
        &&& lines[c + 3 * i] == "outputs."@ + o.name@ + ".camera_x="@ + o.camera_x@
        &&& lines[c + 3 * i + 1] == "outputs."@ + o.name@ + ".camera_y="@ + o.camera_y@
        &&& lines[c + 3 * i + 2] == "outputs."@ + o.name@ + ".zoom="@ + o.zoom@
    } by {
        lemma_output_at(outputs, outputs.len() as int, i);
        assert(lines[head.len() + 3 * i] == tail[3 * i]);
        assert(lines[head.len() + 3 * i + 1] == tail[3 * i + 1]);
        assert(lines[head.len() + 3 * i + 2] == tail[3 * i + 2]);
    }
}

proof fn lemma_outputs_count(outputs: Seq<OutputText>, n: int)
    requires
        0 <= n,
    ensures
        outputs_lines(outputs, n).len() == 3 * n,
    decreases n,
{
    if n > 0 {
        lemma_outputs_count(outputs, n - 1);
    }
}

proof fn lemma_output_at(outputs: Seq<OutputText>, n: int, i: int)
    requires
        0 <= i < n <= outputs.len(),
    ensures
        outputs_lines(outputs, n).len() == 3 * n,
        outputs_lines(outputs, n)[3 * i] == output_lines(outputs[i])[0],
        outputs_lines(outputs, n)[3 * i + 1] == output_lines(outputs[i])[1],
        outputs_lines(outputs, n)[3 * i + 2] == output_lines(outputs[i])[2],
    decreases n,
{
    lemma_outputs_count(outputs, n);
    lemma_outputs_count(outputs, n - 1);
    if i < n - 1 {
        lemma_output_at(outputs, n - 1, i);
    }
}

/// A carriage return before a line break does not belong to the line; one at the
/// end of a last line without a break does.
pub proof fn law_carriage_returns_end_lines(line: Seq<char>, rest: Seq<char>)
    requires
        one_line(line),
    ensures
        lines_of(line + seq!['\r', '\n'] + rest) == seq![line] + lines_of(rest),
        lines_of(line + seq!['\n'] + rest) == seq![line] + lines_of(rest),
        lines_of(line + seq!['\r']) == seq![line + seq!['\r']],
{
    let ended = line + seq!['\r'];
    assert forall|j: int| 0 <= j < ended.len() implies #[trigger] ended[j] != '\n' by {
        if j < line.len() {
            assert(line.contains(line[j]));
        }
    }
    let text = line + seq!['\r', '\n'] + rest;
    let k = line.len() as int + 1;
    lemma_first_index(text, '\n', 0);
    assert(text[k] == '\n');
    assert(forall|j: int| 0 <= j < k ==> #[trigger] text[j] == ended[j]);
    assert(first_index(text, '\n', 0) == Some(k)) by {
        let f = first_index(text, '\n', 0)->0;
        if f < k {
            assert(text[f] == ended[f]);
        }
    }
    assert(text.subrange(0, k) =~= ended);
    assert(without_cr(ended) =~= line);
    assert(text.subrange(k + 1, text.len() as int) =~= rest);
    let plain = line + seq!['\n'] + rest;
    lemma_first_index(plain, '\n', 0);
    assert(plain[k - 1] == '\n');
    assert(forall|j: int| 0 <= j < k - 1 ==> #[trigger] plain[j] == ended[j]);
    assert(first_index(plain, '\n', 0) == Some(k - 1)) by {
        let f = first_index(plain, '\n', 0)->0;
        if f < k - 1 {
            assert(plain[f] == ended[f]);
        }
    }
    assert(plain.subrange(0, k - 1) =~= line);
    assert(without_cr(line) == line) by {
        if line.len() > 0 {
            assert(line.contains(line.last()));
        }
    }
    assert(plain.subrange(k, plain.len() as int) =~= rest);
    lemma_first_index(ended, '\n', 0);
}

/// A line says something of an output only if it begins with `outputs.`, has an
/// equals sign, and names a camera coordinate or a zoom before the first of them.
pub proof fn law_other_lines_say_nothing(line: Seq<char>)
    ensures
        field_of(line) matches Some(f) ==> {
            let key = match f.key {
                FieldKey::CameraX => ".camera_x"@,
                FieldKey::CameraY => ".camera_y"@,
                FieldKey::Zoom => ".zoom"@,
            };
            line == "outputs."@ + f.name + key + seq!['='] + f.value && !(f.name + key).contains(
                '=',
            )
        },
{
    if let Some(f) = field_of(line) {
        let start = "outputs."@.len() as int;
        let rest = line.subrange(start, line.len() as int);
        lemma_first_index(rest, '=', 0);
        let k = first_index(rest, '=', 0)->0;
        let left = rest.subrange(0, k);
        let key = match f.key {
            FieldKey::CameraX => ".camera_x"@,
            FieldKey::CameraY => ".camera_y"@,
            FieldKey::Zoom => ".zoom"@,
        };
        assert(left =~= f.name + key);
        assert(!left.contains('=')) by {
            if left.contains('=') {
                let j = choose|j: int| 0 <= j < left.len() && left[j] == '=';
                assert(rest[j] == '=');
            }
        }
        assert(line.subrange(0, start) =~= "outputs."@);
        assert(line =~= line.subrange(0, start) + left + seq!['='] + f.value);
        assert(line =~= "outputs."@ + f.name + key + seq!['='] + f.value);
    }
}

/// An output's viewport is kept under its name; of several outputs of one name
/// that of the last.
pub proof fn law_last_viewport_counts<V>(
    cameras: Map<Seq<char>, V>,
    outputs: Seq<Named<V>>,
    i: int,
)
    requires
        0 <= i < outputs.len(),
        forall|j: int|
            i < j < outputs.len() ==> (#[trigger] outputs[j]).name@ != outputs[i].name@,
    ensures
        with_cameras(cameras, outputs).dom().contains(outputs[i].name@),
        with_cameras(cameras, outputs)[outputs[i].name@] == outputs[i].value,
    decreases outputs.len(),
{
    let rest = outputs.drop_last();
    if i < rest.len() {
        assert(forall|j: int| 0 <= j < rest.len() ==> #[trigger] rest[j] == outputs[j]);
        law_last_viewport_counts(cameras, rest, i);
        assert(outputs[outputs.len() - 1].name@ != outputs[i].name@);
    }
}

/// A name that none of the outputs has keeps its viewport, or stays without.
pub proof fn law_other_viewports_stay<V>(
    cameras: Map<Seq<char>, V>,
    outputs: Seq<Named<V>>,
    name: Seq<char>,
)
    requires
        forall|i: int| 0 <= i < outputs.len() ==> (#[trigger] outputs[i]).name@ != name,
    ensures
        with_cameras(cameras, outputs).dom().contains(name) <==> cameras.dom().contains(name),
        cameras.dom().contains(name) ==> with_cameras(cameras, outputs)[name] == cameras[name],
    decreases outputs.len(),
{
    if outputs.len() > 0 {
        let rest = outputs.drop_last();
        assert forall|i: int| 0 <= i < rest.len() implies (#[trigger] rest[i]).name@ != name by {
            assert(rest[i] == outputs[i]);
        }
        law_other_viewports_stay(cameras, rest, name);
        assert(outputs[outputs.len() - 1].name@ != name);
    }
}

/// Anything that is not as the file says makes it dirty: the layout, a count, an
/// output that it does not know, one that has moved.
pub proof fn law_every_change_is_dirty<V: Copy>(
    file: StateFile<V>,
    outputs: Seq<Named<V>>,
    moved: Seq<bool>,
    layout: Seq<char>,
    window_count: usize,
    layer_count: usize,
    i: int,
)
    requires
        layout != file.layout@ || window_count != file.window_count || layer_count
            != file.layer_count || (0 <= i < outputs.len() && (moved[i]
            || !file.cameras@.dom().contains(outputs[i].name@))),
    ensures
        file.dirty(outputs, moved, layout, window_count, layer_count),
{
    if 0 <= i < outputs.len() && (moved[i] || !file.cameras@.dom().contains(outputs[i].name@)) {
        assert(file.output_changed(outputs[i], moved[i]));
    }
}

/// Where all is as the file says, it is not dirty.
pub proof fn law_unchanged_is_clean<V: Copy>(
    file: StateFile<V>,
    outputs: Seq<Named<V>>,
    moved: Seq<bool>,
)
    requires
        moved.len() == outputs.len(),
        forall|i: int| 0 <= i < moved.len() ==> !#[trigger] moved[i],
        forall|i: int|
            0 <= i < outputs.len() ==> file.cameras@.dom().contains((#[trigger] outputs[i]).name@),
    ensures
        !file.dirty(outputs, moved, file.layout@, file.window_count, file.layer_count),
{
    assert forall|i: int| 0 <= i < outputs.len() implies !#[trigger] file.output_changed(
        outputs[i],
        moved[i],
    ) by {
        assert(!moved[i]);
    }
}

/// Of several values that are given for a key of an output the last one counts,
/// and there is none only if none is given.
pub proof fn law_last_value_counts<V>(
    fields: Seq<ReadField<V>>,
    name: Seq<char>,
    key: FieldKey,
    n: int,
)
    requires
        0 <= n <= fields.len(),
    ensures
        match last_value(fields, name, key, n) {
            Some(v) => exists|k: int|
                0 <= k < n && (#[trigger] fields[k]).name@ == name && fields[k].key == key
                    && fields[k].value == v && forall|j: int|
                    k < j < n ==> (#[trigger] fields[j]).name@ != name || fields[j].key != key,
            None => forall|k: int|
                0 <= k < n ==> (#[trigger] fields[k]).name@ != name || fields[k].key != key,
        },
    decreases n,
{
    if n > 0 {
        if fields[n - 1].name@ == name && fields[n - 1].key == key {
            assert(fields[n - 1].value == last_value(fields, name, key, n)->0);
        } else {
            law_last_value_counts(fields, name, key, n - 1);
            if last_value(fields, name, key, n) is Some {
                let v = last_value(fields, name, key, n - 1)->0;
                let k = choose|k: int|
                    0 <= k < n - 1 && (#[trigger] fields[k]).name@ == name && fields[k].key == key
                        && fields[k].value == v && forall|j: int|
                        k < j < n - 1 ==> (#[trigger] fields[j]).name@ != name || fields[j].key
                            != key;
                assert(fields[k].value == v);
            }
        }
    }
}

/// An output's viewport is known exactly if its camera's two coordinates and its
/// zoom are given, and it is made of these.
pub proof fn law_viewport_needs_all_three<V>(fields: Seq<ReadField<V>>, name: Seq<char>)
    ensures
        ({
            let n = fields.len() as int;
            let part = part_view(fields, name, n);
            &&& complete(part) <==> {
                &&& exists|i: int|
                    0 <= i < n && (#[trigger] fields[i]).name@ == name && fields[i].key is CameraX
                &&& exists|i: int|
                    0 <= i < n && (#[trigger] fields[i]).name@ == name && fields[i].key is CameraY
                &&& exists|i: int|
                    0 <= i < n && (#[trigger] fields[i]).name@ == name && fields[i].key is Zoom
            }
            &&& complete(part) ==> {
                let whole = whole_view(part);
                &&& Some(whole.camera_x) == last_value(fields, name, FieldKey::CameraX, n)
                &&& Some(whole.camera_y) == last_value(fields, name, FieldKey::CameraY, n)
                &&& Some(whole.zoom) == last_value(fields, name, FieldKey::Zoom, n)
            }
        }),
{
    let n = fields.len() as int;
    law_last_value_counts(fields, name, FieldKey::CameraX, n);
    law_last_value_counts(fields, name, FieldKey::CameraY, n);
    law_last_value_counts(fields, name, FieldKey::Zoom, n);
}

} // verus!
