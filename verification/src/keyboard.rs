//! Which actions one key press triggers, from the shortcut table.
//!
//! A press is one key combination (modifiers and key name). A binding matches
//! a press when its modifiers and key name are equal to the press's. On macOS
//! the platform menu handles the first binding of file, playback and edit
//! actions when that binding has a modifier, so it is skipped here; tool
//! bindings are always handled here.

use vstd::prelude::*;
use crate::shortcuts::{
    is_default_table, spec_default_combo, spec_get, ComboView, KeyCombo, Keybindings, ACTION_CLOSE_DOCUMENT,
    ACTION_COPY, ACTION_CUT, ACTION_DELETE,
    ACTION_DUPLICATE, ACTION_EXIT, ACTION_EXPORT_AUDIO, ACTION_EXPORT_MIDI, ACTION_NEW_PROJECT, ACTION_OPEN,
    ACTION_PASTE, ACTION_REDO, ACTION_SAVE, ACTION_SAVE_AS, ACTION_SELECT_ALL, ACTION_SETTINGS, ACTION_STOP,
    ACTION_TOGGLE_PLAY, ACTION_TOOL_CURVE, ACTION_TOOL_ERASER, ACTION_TOOL_PAN, ACTION_TOOL_PENCIL,
    ACTION_TOOL_SCISSORS, ACTION_TOOL_SELECT, ACTION_TOOL_SELECT_VERTICAL, ACTION_TRANSPOSE_DOWN,
    ACTION_TRANSPOSE_UP, ACTION_UNDO,
};
use crate::text::str_eq;

verus! {

/// An action of the file menu.
#[derive(Clone, Copy, Debug, PartialEq, Eq)]
pub enum FileAction {
    NewProject,
    Open,
    Save,
    SaveAs,
    CloseDocument,
    ExportAudio,
    ExportMidi,
    Settings,
    Exit,
}

/// An editing tool of the tool bar.
#[derive(Clone, Copy, Debug, PartialEq, Eq)]
pub enum Tool {
    Select,
    SelectVertical,
    Pan,
    Pencil,
    Curve,
    Scissors,
    Eraser,
}

/// The shortcut-table id of a file action.
pub open spec fn spec_file_action_id(a: FileAction) -> Seq<char> {
    match a {
        FileAction::NewProject => ACTION_NEW_PROJECT@,
        FileAction::Open => ACTION_OPEN@,
        FileAction::Save => ACTION_SAVE@,
        FileAction::SaveAs => ACTION_SAVE_AS@,
        FileAction::CloseDocument => ACTION_CLOSE_DOCUMENT@,
        FileAction::ExportAudio => ACTION_EXPORT_AUDIO@,
        FileAction::ExportMidi => ACTION_EXPORT_MIDI@,
        FileAction::Settings => ACTION_SETTINGS@,
        FileAction::Exit => ACTION_EXIT@,
    }
}

/// The shortcut-table id of a tool.
pub open spec fn spec_tool_id(t: Tool) -> Seq<char> {
    match t {
        Tool::Select => ACTION_TOOL_SELECT@,
        Tool::SelectVertical => ACTION_TOOL_SELECT_VERTICAL@,
        Tool::Pan => ACTION_TOOL_PAN@,
        Tool::Pencil => ACTION_TOOL_PENCIL@,
        Tool::Curve => ACTION_TOOL_CURVE@,
        Tool::Scissors => ACTION_TOOL_SCISSORS@,
        Tool::Eraser => ACTION_TOOL_ERASER@,
    }
}

/// The file actions in menu order.
pub open spec fn file_actions() -> Seq<FileAction> {
    seq![
        FileAction::NewProject,
        FileAction::Open,
        FileAction::Save,
        FileAction::SaveAs,
        FileAction::CloseDocument,
        FileAction::ExportAudio,
        FileAction::ExportMidi,
        FileAction::Settings,
        FileAction::Exit,
    ]
}

/// The tools in tool-bar order.
pub open spec fn tools() -> Seq<Tool> {
    seq![Tool::Select, Tool::SelectVertical, Tool::Pan, Tool::Pencil, Tool::Curve, Tool::Scissors, Tool::Eraser]
}

impl FileAction {
    /// Its shortcut-table id.
    pub fn action_id(&self) -> (r: &'static str)
        ensures
            r@ == spec_file_action_id(*self),
    {
        match self {
            FileAction::NewProject => ACTION_NEW_PROJECT,
            FileAction::Open => ACTION_OPEN,
            FileAction::Save => ACTION_SAVE,
            FileAction::SaveAs => ACTION_SAVE_AS,
            FileAction::CloseDocument => ACTION_CLOSE_DOCUMENT,
            FileAction::ExportAudio => ACTION_EXPORT_AUDIO,
            FileAction::ExportMidi => ACTION_EXPORT_MIDI,
            FileAction::Settings => ACTION_SETTINGS,
            FileAction::Exit => ACTION_EXIT,
        }
    }

    /// All file actions in menu order.
    pub fn all() -> (r: Vec<FileAction>)
        ensures
            r@ == file_actions(),
    {
        let r = vec![
            FileAction::NewProject,
            FileAction::Open,
            FileAction::Save,
            FileAction::SaveAs,
            FileAction::CloseDocument,
            FileAction::ExportAudio,
            FileAction::ExportMidi,
            FileAction::Settings,
            FileAction::Exit,
        ];
        proof {
            assert(r@ =~= file_actions());
        }
        r
    }
}

impl Tool {
    /// Its shortcut-table id.
    pub fn action_id(&self) -> (r: &'static str)
        ensures
            r@ == spec_tool_id(*self),
    {
        match self {
            Tool::Select => ACTION_TOOL_SELECT,
            Tool::SelectVertical => ACTION_TOOL_SELECT_VERTICAL,
            Tool::Pan => ACTION_TOOL_PAN,
            Tool::Pencil => ACTION_TOOL_PENCIL,
            Tool::Curve => ACTION_TOOL_CURVE,
            Tool::Scissors => ACTION_TOOL_SCISSORS,
            Tool::Eraser => ACTION_TOOL_ERASER,
        }
    }

    /// All tools in tool-bar order.
    pub fn all() -> (r: Vec<Tool>)
        ensures
            r@ == tools(),
    {
        let r = vec![
            Tool::Select,
            Tool::SelectVertical,
            Tool::Pan,
            Tool::Pencil,
            Tool::Curve,
            Tool::Scissors,
            Tool::Eraser,
        ];
        proof {
            assert(r@ =~= tools());
        }
        r
    }
}

/// The actions triggered in one frame.
#[derive(Clone, Copy, Debug, PartialEq, Eq)]
pub struct KeyboardActions {
    pub toggle_play: bool,
    /// Play/pause pressed while playing: pause and return.
    pub pause_return: bool,
    pub stop_play: bool,
    pub delete_selected: bool,
    pub duplicate_selected: bool,
    pub transpose_up: bool,
    pub transpose_down: bool,
    pub undo: bool,
    pub redo: bool,
    pub copy: bool,
    pub cut: bool,
    pub paste: bool,
    pub select_all: bool,
    /// The tool to switch to.
    pub tool_to_activate: Option<Tool>,
    /// The file-menu action to run.
    pub file_action: Option<FileAction>,
}

/// No action.
pub open spec fn no_actions() -> KeyboardActions {
    KeyboardActions {
        toggle_play: false,
        pause_return: false,
        stop_play: false,
        delete_selected: false,
        duplicate_selected: false,
        transpose_up: false,
        transpose_down: false,
        undo: false,
        redo: false,
        copy: false,
        cut: false,
        paste: false,
        select_all: false,
        tool_to_activate: None,
        file_action: None,
    }
}

impl KeyboardActions {
    /// No action.
    pub fn none() -> (r: KeyboardActions)
        ensures
            r == no_actions(),
    {
        KeyboardActions {
            toggle_play: false,
            pause_return: false,
            stop_play: false,
            delete_selected: false,
            duplicate_selected: false,
            transpose_up: false,
            transpose_down: false,
            undo: false,
            redo: false,
            copy: false,
            cut: false,
            paste: false,
            select_all: false,
            tool_to_activate: None,
            file_action: None,
        }
    }
}

/// The combination has a modifier.
pub open spec fn has_modifier(c: ComboView) -> bool {
    c.0 || c.1 || c.2
}

/// Some binding of the list equals the press; with `skip_menu`, a first
/// binding with a modifier is left to the platform menu.
pub open spec fn list_fires(l: Seq<ComboView>, p: ComboView, skip_menu: bool) -> bool {
    exists|i: int| 0 <= i < l.len() && #[trigger] l[i] == p && !(skip_menu && i == 0 && has_modifier(l[0]))
}

/// Action `id` of table `m` fires on press `p`.
#[verifier::opaque]
pub open spec fn fires(m: Map<Seq<char>, Seq<ComboView>>, id: Seq<char>, p: ComboView, skip_menu: bool) -> bool {
    list_fires(spec_get(m, id), p, skip_menu)
}

/// The first file action of `acts` that fires.
pub open spec fn first_file_action(
    acts: Seq<FileAction>,
    m: Map<Seq<char>, Seq<ComboView>>,
    p: ComboView,
    skip_menu: bool,
) -> Option<FileAction>
    decreases acts.len(),
{
    if acts.len() == 0 {
        None
    } else if fires(m, spec_file_action_id(acts[0]), p, skip_menu) {
        Some(acts[0])
    } else {
        first_file_action(acts.drop_first(), m, p, skip_menu)
    }
}

/// The first tool of `ts` whose shortcut fires (tool shortcuts are never left
/// to the platform menu).
pub open spec fn first_tool(ts: Seq<Tool>, m: Map<Seq<char>, Seq<ComboView>>, p: ComboView) -> Option<Tool>
    decreases ts.len(),
{
    if ts.len() == 0 {
        None
    } else if fires(m, spec_tool_id(ts[0]), p, false) {
        Some(ts[0])
    } else {
        first_tool(ts.drop_first(), m, p)
    }
}

/// The actions of press `p` (not blocked).
pub open spec fn spec_actions_of(
    m: Map<Seq<char>, Seq<ComboView>>,
    p: ComboView,
    is_playing: bool,
    macos: bool,
) -> KeyboardActions {
    let play = fires(m, ACTION_TOGGLE_PLAY@, p, macos);
    KeyboardActions {
        toggle_play: play && !is_playing,
        pause_return: play && is_playing,
        stop_play: fires(m, ACTION_STOP@, p, macos),
        delete_selected: fires(m, ACTION_DELETE@, p, macos) || p.3 == "Backspace"@,
        duplicate_selected: fires(m, ACTION_DUPLICATE@, p, macos),
        transpose_up: fires(m, ACTION_TRANSPOSE_UP@, p, macos),
        transpose_down: fires(m, ACTION_TRANSPOSE_DOWN@, p, macos),
        undo: fires(m, ACTION_UNDO@, p, macos),
        redo: fires(m, ACTION_REDO@, p, macos) || (p.0 && p.3 == "Y"@),
        copy: fires(m, ACTION_COPY@, p, macos),
        cut: fires(m, ACTION_CUT@, p, macos),
        paste: fires(m, ACTION_PASTE@, p, macos),
        select_all: fires(m, ACTION_SELECT_ALL@, p, macos),
        tool_to_activate: first_tool(tools(), m, p),
        file_action: first_file_action(file_actions(), m, p, macos),
    }
}

/// Some binding of action `id` in table `m` is the press `p` itself, and it
/// is not a first binding with a modifier that the macOS menu takes.
pub open spec fn press_bound_to(m: Map<Seq<char>, Seq<ComboView>>, id: Seq<char>, p: ComboView, macos: bool) -> bool {
    exists|i: int|
        0 <= i < spec_get(m, id).len() && #[trigger] spec_get(m, id)[i] == p && !(macos && i == 0 && (
        spec_get(m, id)[0].0 || spec_get(m, id)[0].1 || spec_get(m, id)[0].2))
}

/// Each flag of a press follows the bindings of its own action: copy fires
/// exactly when a copy binding is pressed, cut exactly when a cut binding is,
/// and so on for every edit and playback action; Backspace also deletes,
/// Command+Y also redoes, and play toggles or pauses by the playing state.
pub proof fn lemma_flags_follow_own_bindings(
    m: Map<Seq<char>, Seq<ComboView>>,
    p: ComboView,
    is_playing: bool,
    macos: bool,
)
    ensures
        ({
            let r = spec_actions_of(m, p, is_playing, macos);
            &&& r.copy == press_bound_to(m, ACTION_COPY@, p, macos)
            &&& r.cut == press_bound_to(m, ACTION_CUT@, p, macos)
            &&& r.paste == press_bound_to(m, ACTION_PASTE@, p, macos)
            &&& r.select_all == press_bound_to(m, ACTION_SELECT_ALL@, p, macos)
            &&& r.undo == press_bound_to(m, ACTION_UNDO@, p, macos)
            &&& r.redo == (press_bound_to(m, ACTION_REDO@, p, macos) || (p.0 && p.3 == "Y"@))
            &&& r.delete_selected == (press_bound_to(m, ACTION_DELETE@, p, macos) || p.3 == "Backspace"@)
            &&& r.duplicate_selected == press_bound_to(m, ACTION_DUPLICATE@, p, macos)
            &&& r.transpose_up == press_bound_to(m, ACTION_TRANSPOSE_UP@, p, macos)
            &&& r.transpose_down == press_bound_to(m, ACTION_TRANSPOSE_DOWN@, p, macos)
            &&& r.stop_play == press_bound_to(m, ACTION_STOP@, p, macos)
            &&& r.toggle_play == (press_bound_to(m, ACTION_TOGGLE_PLAY@, p, macos) && !is_playing)
            &&& r.pause_return == (press_bound_to(m, ACTION_TOGGLE_PLAY@, p, macos) && is_playing)
        }),
{
    reveal(fires);
}

/// The tool to activate is the first tool, in tool-bar order (select,
/// vertical select, pan, pencil, curve, scissors, eraser), one of whose
/// bindings is the press (tool bindings are never left to the macOS menu);
/// none when no tool binding is pressed.
pub proof fn lemma_tool_is_first_bound(
    m: Map<Seq<char>, Seq<ComboView>>,
    p: ComboView,
    is_playing: bool,
    macos: bool,
)
    ensures
        ({
            let t = spec_actions_of(m, p, is_playing, macos).tool_to_activate;
            let select = press_bound_to(m, ACTION_TOOL_SELECT@, p, false);
            let vertical = press_bound_to(m, ACTION_TOOL_SELECT_VERTICAL@, p, false);
            let pan = press_bound_to(m, ACTION_TOOL_PAN@, p, false);
            let pencil = press_bound_to(m, ACTION_TOOL_PENCIL@, p, false);
            let curve = press_bound_to(m, ACTION_TOOL_CURVE@, p, false);
            let scissors = press_bound_to(m, ACTION_TOOL_SCISSORS@, p, false);
            let eraser = press_bound_to(m, ACTION_TOOL_ERASER@, p, false);
            &&& select ==> t == Some(Tool::Select)
            &&& !select && vertical ==> t == Some(Tool::SelectVertical)
            &&& !select && !vertical && pan ==> t == Some(Tool::Pan)
            &&& !select && !vertical && !pan && pencil ==> t == Some(Tool::Pencil)
            &&& !select && !vertical && !pan && !pencil && curve ==> t == Some(Tool::Curve)
            &&& !select && !vertical && !pan && !pencil && !curve && scissors ==> t == Some(Tool::Scissors)
            &&& !select && !vertical && !pan && !pencil && !curve && !scissors && eraser ==> t == Some(Tool::Eraser)
            &&& !select && !vertical && !pan && !pencil && !curve && !scissors && !eraser ==> t is None
        }),
{
    reveal(fires);
    reveal_with_fuel(first_tool, 8);
}

/// The file action is the first, in menu order (new project, open, save, save
/// as, close, export audio, export MIDI, settings, exit), one of whose
/// bindings is the press; none when no file-action binding is pressed.
pub proof fn lemma_file_action_is_first_bound(
    m: Map<Seq<char>, Seq<ComboView>>,
    p: ComboView,
    is_playing: bool,
    macos: bool,
)
    ensures
        ({
            let f = spec_actions_of(m, p, is_playing, macos).file_action;
            let new = press_bound_to(m, ACTION_NEW_PROJECT@, p, macos);
            let open = press_bound_to(m, ACTION_OPEN@, p, macos);
            let save = press_bound_to(m, ACTION_SAVE@, p, macos);
            let save_as = press_bound_to(m, ACTION_SAVE_AS@, p, macos);
            let close = press_bound_to(m, ACTION_CLOSE_DOCUMENT@, p, macos);
            let audio = press_bound_to(m, ACTION_EXPORT_AUDIO@, p, macos);
            let midi = press_bound_to(m, ACTION_EXPORT_MIDI@, p, macos);
            let settings = press_bound_to(m, ACTION_SETTINGS@, p, macos);
            let exit = press_bound_to(m, ACTION_EXIT@, p, macos);
            &&& new ==> f == Some(FileAction::NewProject)
            &&& !new && open ==> f == Some(FileAction::Open)
            &&& !new && !open && save ==> f == Some(FileAction::Save)
            &&& !new && !open && !save && save_as ==> f == Some(FileAction::SaveAs)
            &&& !new && !open && !save && !save_as && close ==> f == Some(FileAction::CloseDocument)
            &&& !new && !open && !save && !save_as && !close && audio ==> f == Some(FileAction::ExportAudio)
            &&& !new && !open && !save && !save_as && !close && !audio && midi ==> f == Some(FileAction::ExportMidi)
            &&& !new && !open && !save && !save_as && !close && !audio && !midi && settings ==> f == Some(FileAction::Settings)
            &&& !new && !open && !save && !save_as && !close && !audio && !midi && !settings && exit ==> f == Some(FileAction::Exit)
            &&& !new && !open && !save && !save_as && !close && !audio && !midi && !settings && !exit ==> f is None
        }),
{
    reveal(fires);
    reveal_with_fuel(first_file_action, 10);
}

/// With the default table, off macOS, Command+C copies and does not cut, and
/// Command+X cuts and does not copy.
pub proof fn lemma_default_copy_and_cut_keys(m: Map<Seq<char>, Seq<ComboView>>, is_playing: bool)
    requires
        is_default_table(m),
    ensures
        spec_actions_of(m, (true, false, false, "C"@), is_playing, false).copy,
        !spec_actions_of(m, (true, false, false, "C"@), is_playing, false).cut,
        spec_actions_of(m, (true, false, false, "X"@), is_playing, false).cut,
        !spec_actions_of(m, (true, false, false, "X"@), is_playing, false).copy,
{
    reveal(fires);
    reveal_strlit("new_project");
    reveal_strlit("open");
    reveal_strlit("save");
    reveal_strlit("save_as");
    reveal_strlit("close_document");
    reveal_strlit("export_audio");
    reveal_strlit("export_midi");
    reveal_strlit("settings");
    reveal_strlit("exit");
    reveal_strlit("undo");
    reveal_strlit("redo");
    reveal_strlit("cut");
    reveal_strlit("copy");
    reveal_strlit("C");
    reveal_strlit("X");
    let copy_key: ComboView = (true, false, false, "C"@);
    let cut_key: ComboView = (true, false, false, "X"@);
    assert(ACTION_COPY@ == "copy"@);
    assert(ACTION_CUT@ == "cut"@);
    assert(ACTION_COPY@.len() == 4);
    assert(ACTION_CUT@.len() == 3);
    assert(ACTION_COPY@ != ACTION_CUT@);
    assert(ACTION_NEW_PROJECT@ == "new_project"@);
    assert(ACTION_NEW_PROJECT@.len() == 11);
    assert(ACTION_NEW_PROJECT@ != ACTION_CUT@);
    assert(ACTION_NEW_PROJECT@ != ACTION_COPY@);
    assert(ACTION_OPEN@ == "open"@);
    assert(ACTION_OPEN@.len() == 4);
    assert(ACTION_OPEN@ != ACTION_CUT@);
    assert(ACTION_OPEN@ != ACTION_COPY@) by {
        assert(ACTION_OPEN@[0] != ACTION_COPY@[0]);
    }
    assert(ACTION_SAVE@ == "save"@);
    assert(ACTION_SAVE@.len() == 4);
    assert(ACTION_SAVE@ != ACTION_CUT@);
    assert(ACTION_SAVE@ != ACTION_COPY@) by {
        assert(ACTION_SAVE@[0] != ACTION_COPY@[0]);
    }
    assert(ACTION_SAVE_AS@ == "save_as"@);
    assert(ACTION_SAVE_AS@.len() == 7);
    assert(ACTION_SAVE_AS@ != ACTION_CUT@);
    assert(ACTION_SAVE_AS@ != ACTION_COPY@);
    assert(ACTION_CLOSE_DOCUMENT@ == "close_document"@);
    assert(ACTION_CLOSE_DOCUMENT@.len() == 14);
    assert(ACTION_CLOSE_DOCUMENT@ != ACTION_CUT@);
    assert(ACTION_CLOSE_DOCUMENT@ != ACTION_COPY@);
    assert(ACTION_EXPORT_AUDIO@ == "export_audio"@);
    assert(ACTION_EXPORT_AUDIO@.len() == 12);
    assert(ACTION_EXPORT_AUDIO@ != ACTION_CUT@);
    assert(ACTION_EXPORT_AUDIO@ != ACTION_COPY@);
    assert(ACTION_EXPORT_MIDI@ == "export_midi"@);
    assert(ACTION_EXPORT_MIDI@.len() == 11);
    assert(ACTION_EXPORT_MIDI@ != ACTION_CUT@);
    assert(ACTION_EXPORT_MIDI@ != ACTION_COPY@);
    assert(ACTION_SETTINGS@ == "settings"@);
    assert(ACTION_SETTINGS@.len() == 8);
    assert(ACTION_SETTINGS@ != ACTION_CUT@);
    assert(ACTION_SETTINGS@ != ACTION_COPY@);
    assert(ACTION_EXIT@ == "exit"@);
    assert(ACTION_EXIT@.len() == 4);
    assert(ACTION_EXIT@ != ACTION_CUT@);
    assert(ACTION_EXIT@ != ACTION_COPY@) by {
        assert(ACTION_EXIT@[0] != ACTION_COPY@[0]);
    }
    assert(ACTION_UNDO@ == "undo"@);
    assert(ACTION_UNDO@.len() == 4);
    assert(ACTION_UNDO@ != ACTION_CUT@);
    assert(ACTION_UNDO@ != ACTION_COPY@) by {
        assert(ACTION_UNDO@[0] != ACTION_COPY@[0]);
    }
    assert(ACTION_REDO@ == "redo"@);
    assert(ACTION_REDO@.len() == 4);
    assert(ACTION_REDO@ != ACTION_CUT@);
    assert(ACTION_REDO@ != ACTION_COPY@) by {
        assert(ACTION_REDO@[0] != ACTION_COPY@[0]);
    }
    assert(spec_default_combo(ACTION_CUT@) == Some(cut_key));
    assert(spec_default_combo(ACTION_COPY@) == Some(copy_key));
    assert(spec_get(m, ACTION_COPY@) == seq![copy_key]);
    assert(spec_get(m, ACTION_CUT@) == seq![cut_key]);
    assert("C"@ != "X"@) by {
        assert("C"@[0] != "X"@[0]);
    }
    assert(spec_get(m, ACTION_COPY@)[0] == copy_key);
    assert(spec_get(m, ACTION_CUT@)[0] == cut_key);
}

/// Whether action `id` fires on the press.
fn action_fires(kb: &Keybindings, id: &str, p: &KeyCombo, skip_menu: bool) -> (r: bool)
    ensures
        r == fires(kb@, id@, p@, skip_menu),
{
    reveal(fires);
    let list = kb.get(id);
    let ghost l = spec_get(kb@, id@);
    let mut i: usize = 0;
    while i < list.len()
        invariant
            i <= list@.len(),
            crate::shortcuts::combos_view(list@) == l,
            l == spec_get(kb@, id@),
            forall|j: int| 0 <= j < i ==> !(#[trigger] l[j] == p@ && !(skip_menu && j == 0 && has_modifier(l[0]))),
        decreases list@.len() - i,
    {
        let c = &list[i];
        proof {
            assert(l[i as int] == c@);
        }
        if c.same_as(p) {
            let menu = skip_menu && i == 0 && (c.command || c.shift || c.alt);
            if !menu {
                proof {
                    assert(l[i as int] == p@);
                    assert(!(skip_menu && i == 0 && has_modifier(l[0])));
                    assert(list_fires(l, p@, skip_menu));
                    reveal(fires);
                    assert(fires(kb@, id@, p@, skip_menu));
                }
                return true;
            }
        }
        i += 1;
    }
    proof {
        reveal(fires);
    }
    false
}

/// The action flags of press `p`, with no tool and no file action.
fn action_flags(kb: &Keybindings, p: &KeyCombo, is_playing: bool, macos: bool) -> (r: KeyboardActions)
    ensures
        r == (KeyboardActions {
            tool_to_activate: None,
            file_action: None,
            ..spec_actions_of(kb@, p@, is_playing, macos)
        }),
{
    let play = action_fires(kb, ACTION_TOGGLE_PLAY, p, macos);
    let mut r = KeyboardActions::none();
    r.toggle_play = play && !is_playing;
    r.pause_return = play && is_playing;
    r.stop_play = action_fires(kb, ACTION_STOP, p, macos);
    r.delete_selected = action_fires(kb, ACTION_DELETE, p, macos) || str_eq(p.key.as_str(), "Backspace");
    r.duplicate_selected = action_fires(kb, ACTION_DUPLICATE, p, macos);
    r.transpose_up = action_fires(kb, ACTION_TRANSPOSE_UP, p, macos);
    r.transpose_down = action_fires(kb, ACTION_TRANSPOSE_DOWN, p, macos);
    r.undo = action_fires(kb, ACTION_UNDO, p, macos);
    r.redo = action_fires(kb, ACTION_REDO, p, macos) || (p.command && str_eq(p.key.as_str(), "Y"));
    r.copy = action_fires(kb, ACTION_COPY, p, macos);
    r.cut = action_fires(kb, ACTION_CUT, p, macos);
    r.paste = action_fires(kb, ACTION_PASTE, p, macos);
    r.select_all = action_fires(kb, ACTION_SELECT_ALL, p, macos);
    r
}

/// The first tool, in tool-bar order, whose binding matches the press.
fn matching_tool(kb: &Keybindings, p: &KeyCombo) -> (r: Option<Tool>)
    ensures
        r == first_tool(tools(), kb@, p@),
{
    // tools: the first in tool-bar order whose binding matches
    let ts = Tool::all();
    let mut tool: Option<Tool> = None;
    let mut i: usize = 0;
    proof {
        assert(ts@.skip(0) =~= ts@);
    }
    while i < ts.len() && tool.is_none()
        invariant
            i <= ts@.len(),
            ts@ == tools(),
            match tool {
                None => first_tool(tools(), kb@, p@) == first_tool(ts@.skip(i as int), kb@, p@),
                Some(t) => first_tool(tools(), kb@, p@) == Some(t),
            },
        decreases ts@.len() - i,
    {
        proof {
            assert(ts@.skip(i as int)[0] == ts@[i as int]);
            assert(ts@.skip(i as int).drop_first() =~= ts@.skip(i + 1));
        }
        if action_fires(kb, ts[i].action_id(), p, false) {
            tool = Some(ts[i]);
        }
        i += 1;
    }
    proof {
        if tool is None {
            assert(ts@.skip(i as int) =~= Seq::<Tool>::empty());
        }
    }
    tool
}

/// The first file action, in menu order, whose binding matches the press.
fn matching_file_action(kb: &Keybindings, p: &KeyCombo, macos: bool) -> (r: Option<FileAction>)
    ensures
        r == first_file_action(file_actions(), kb@, p@, macos),
{
    // file actions: the first in menu order whose binding matches
    let fs = FileAction::all();
    let mut file: Option<FileAction> = None;
    let mut j: usize = 0;
    proof {
        assert(fs@.skip(0) =~= fs@);
    }
    while j < fs.len() && file.is_none()
        invariant
            j <= fs@.len(),
            fs@ == file_actions(),
            match file {
                None => first_file_action(file_actions(), kb@, p@, macos) == first_file_action(
                    fs@.skip(j as int),
                    kb@,
                    p@,
                    macos,
                ),
                Some(f) => first_file_action(file_actions(), kb@, p@, macos) == Some(f),
            },
        decreases fs@.len() - j,
    {
        proof {
            assert(fs@.skip(j as int)[0] == fs@[j as int]);
            assert(fs@.skip(j as int).drop_first() =~= fs@.skip(j + 1));
        }
        if action_fires(kb, fs[j].action_id(), p, macos) {
            file = Some(fs[j]);
        }
        j += 1;
    }
    proof {
        if file is None {
            assert(fs@.skip(j as int) =~= Seq::<FileAction>::empty());
        }
    }
    file
}

/// The actions that one key press triggers. Nothing fires while a text field
/// has the keyboard, the settings window is open or a shortcut is being
/// recorded, or when no key was pressed. Otherwise each action fires when one
/// of its bindings matches the press (on macOS the platform menu handles a
/// first binding with a modifier of file, playback and edit actions); play
/// pauses when playing; Backspace also deletes and Command+Y also redoes; the
/// tool and the file action are the first, in tool-bar and menu order, whose
/// binding matches.
pub fn keyboard_actions(
    kb: &Keybindings,
    pressed: Option<KeyCombo>,
    text_focus: bool,
    settings_open: bool,
    recording: bool,
    is_playing: bool,
    macos: bool,
) -> (r: KeyboardActions)
    ensures
        (text_focus || settings_open || recording) ==> r == no_actions(),
        !(text_focus || settings_open || recording) ==> match pressed {
            None => r == no_actions(),
            Some(p) => r == spec_actions_of(kb@, p@, is_playing, macos),
        },
{
    if text_focus || settings_open || recording {
        return KeyboardActions::none();
    }
    let p = match pressed {
        None => {
            return KeyboardActions::none();
        },
        Some(p) => p,
    };
    let mut r = action_flags(kb, &p, is_playing, macos);
    r.tool_to_activate = matching_tool(kb, &p);
    r.file_action = matching_file_action(kb, &p, macos);
    r
}

} // verus!
