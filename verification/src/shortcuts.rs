//! Keyboard shortcut configuration: which key combinations trigger each action.

use vstd::prelude::*;
use crate::text::{chars_of, owned, str_eq};

verus! {

/// One key combination.
///
/// `command` is the platform's main modifier (⌘ on macOS, Ctrl elsewhere), so
/// one configuration means the same on every platform.
#[derive(Clone, Debug, Default, PartialEq, Eq)]
pub struct KeyCombo {
    pub command: bool,
    pub shift: bool,
    pub alt: bool,
    /// Key name such as "N", "Space", "Comma", "Delete", "ArrowUp".
    pub key: String,
}

/// A key combination as plain values: (command, shift, alt, key name).
pub type ComboView = (bool, bool, bool, Seq<char>);

impl View for KeyCombo {
    type V = ComboView;

    open spec fn view(&self) -> ComboView {
        (self.command, self.shift, self.alt, self.key@)
    }
}

/// The views of a list of combinations.
pub open spec fn combos_view(v: Seq<KeyCombo>) -> Seq<ComboView> {
    v.map_values(|c: KeyCombo| c@)
}

impl KeyCombo {
    /// A combination with the given modifiers and key name.
    pub fn new(command: bool, shift: bool, alt: bool, key: &str) -> (r: KeyCombo)
        ensures
            r@ == (command, shift, alt, key@),
    {
        KeyCombo { command, shift, alt, key: owned(key) }
    }

    /// A copy with the same modifiers and key name.
    pub fn duplicate(&self) -> (r: KeyCombo)
        ensures
            r@ == self@,
    {
        KeyCombo { command: self.command, shift: self.shift, alt: self.alt, key: self.key.clone() }
    }

    /// Same modifiers and key name.
    pub fn same_as(&self, other: &KeyCombo) -> (r: bool)
        ensures
            r == (self@ == other@),
    {
        self.command == other.command && self.shift == other.shift && self.alt == other.alt
            && self.key == other.key
    }
}

fn copy_combos(v: &Vec<KeyCombo>) -> (r: Vec<KeyCombo>)
    ensures
        combos_view(r@) == combos_view(v@),
{
    let mut r: Vec<KeyCombo> = Vec::new();
    let mut i: usize = 0;
    while i < v.len()
        invariant
            i <= v@.len(),
            r@.len() == i,
            forall|j: int| 0 <= j < i ==> #[trigger] r@[j]@ == v@[j]@,
        decreases v@.len() - i,
    {
        r.push(v[i].duplicate());
        i += 1;
    }
    proof {
        assert(combos_view(r@) =~= combos_view(v@));
    }
    r
}

// ── Action ids (the keys of the shortcut table) ──
pub const ACTION_NEW_PROJECT: &'static str = "new_project";
pub const ACTION_OPEN: &'static str = "open";
pub const ACTION_SAVE: &'static str = "save";
pub const ACTION_SAVE_AS: &'static str = "save_as";
pub const ACTION_CLOSE_DOCUMENT: &'static str = "close_document";
pub const ACTION_EXPORT_AUDIO: &'static str = "export_audio";
pub const ACTION_EXPORT_MIDI: &'static str = "export_midi";
pub const ACTION_SETTINGS: &'static str = "settings";
pub const ACTION_EXIT: &'static str = "exit";
pub const ACTION_UNDO: &'static str = "undo";
pub const ACTION_REDO: &'static str = "redo";
pub const ACTION_CUT: &'static str = "cut";
pub const ACTION_COPY: &'static str = "copy";
pub const ACTION_PASTE: &'static str = "paste";
pub const ACTION_SELECT_ALL: &'static str = "select_all";
pub const ACTION_DUPLICATE: &'static str = "duplicate";
pub const ACTION_DELETE: &'static str = "delete";
pub const ACTION_TRANSPOSE_UP: &'static str = "transpose_up";
pub const ACTION_TRANSPOSE_DOWN: &'static str = "transpose_down";
pub const ACTION_TOGGLE_PLAY: &'static str = "toggle_play";
pub const ACTION_STOP: &'static str = "stop";
pub const ACTION_TOOL_SELECT: &'static str = "tool_select";
pub const ACTION_TOOL_SELECT_VERTICAL: &'static str = "tool_select_vertical";
pub const ACTION_TOOL_PAN: &'static str = "tool_pan";
pub const ACTION_TOOL_PENCIL: &'static str = "tool_pencil";
pub const ACTION_TOOL_CURVE: &'static str = "tool_curve";
pub const ACTION_TOOL_SCISSORS: &'static str = "tool_scissors";
pub const ACTION_TOOL_ERASER: &'static str = "tool_eraser";

/// Every configurable action, in settings-page order.
pub open spec fn spec_all_action_ids() -> Seq<Seq<char>> {
    seq![
        ACTION_NEW_PROJECT@,
        ACTION_OPEN@,
        ACTION_SAVE@,
        ACTION_SAVE_AS@,
        ACTION_CLOSE_DOCUMENT@,
        ACTION_EXPORT_AUDIO@,
        ACTION_EXPORT_MIDI@,
        ACTION_SETTINGS@,
        ACTION_EXIT@,
        ACTION_UNDO@,
        ACTION_REDO@,
        ACTION_CUT@,
        ACTION_COPY@,
        ACTION_PASTE@,
        ACTION_SELECT_ALL@,
        ACTION_DUPLICATE@,
        ACTION_DELETE@,
        ACTION_TRANSPOSE_UP@,
        ACTION_TRANSPOSE_DOWN@,
        ACTION_TOGGLE_PLAY@,
        ACTION_STOP@,
        ACTION_TOOL_SELECT@,
        ACTION_TOOL_SELECT_VERTICAL@,
        ACTION_TOOL_PAN@,
        ACTION_TOOL_PENCIL@,
        ACTION_TOOL_CURVE@,
        ACTION_TOOL_SCISSORS@,
        ACTION_TOOL_ERASER@,
    ]
}

/// Every configurable action (settings page and default-table completeness).
pub fn all_action_ids() -> (r: Vec<&'static str>)
    ensures
        r@.map_values(|s: &str| s@) == spec_all_action_ids(),
{
    let r = vec![
        ACTION_NEW_PROJECT,
        ACTION_OPEN,
        ACTION_SAVE,
        ACTION_SAVE_AS,
        ACTION_CLOSE_DOCUMENT,
        ACTION_EXPORT_AUDIO,
        ACTION_EXPORT_MIDI,
        ACTION_SETTINGS,
        ACTION_EXIT,
        ACTION_UNDO,
        ACTION_REDO,
        ACTION_CUT,
        ACTION_COPY,
        ACTION_PASTE,
        ACTION_SELECT_ALL,
        ACTION_DUPLICATE,
        ACTION_DELETE,
        ACTION_TRANSPOSE_UP,
        ACTION_TRANSPOSE_DOWN,
        ACTION_TOGGLE_PLAY,
        ACTION_STOP,
        ACTION_TOOL_SELECT,
        ACTION_TOOL_SELECT_VERTICAL,
        ACTION_TOOL_PAN,
        ACTION_TOOL_PENCIL,
        ACTION_TOOL_CURVE,
        ACTION_TOOL_SCISSORS,
        ACTION_TOOL_ERASER,
    ];
    proof {
        assert(r@.map_values(|s: &str| s@) =~= spec_all_action_ids());
    }
    r
}

/// The default shortcut of an action, `None` when it has none by default.
/// Tools use the main-keyboard digits 1-7 in toolbar order.
pub open spec fn spec_default_combo(id: Seq<char>) -> Option<ComboView> {
    if id == ACTION_NEW_PROJECT@ {
        Some((true, false, false, "N"@))
    } else if id == ACTION_OPEN@ {
        Some((true, false, false, "O"@))
    } else if id == ACTION_SAVE@ {
        Some((true, false, false, "S"@))
    } else if id == ACTION_SAVE_AS@ {
        Some((true, true, false, "S"@))
    } else if id == ACTION_CLOSE_DOCUMENT@ {
        Some((true, false, false, "W"@))
    } else if id == ACTION_EXPORT_AUDIO@ {
        None
    } else if id == ACTION_EXPORT_MIDI@ {
        None
    } else if id == ACTION_SETTINGS@ {
        Some((true, false, false, "Comma"@))
    } else if id == ACTION_EXIT@ {
        Some((true, false, false, "Q"@))
    } else if id == ACTION_UNDO@ {
        Some((true, false, false, "Z"@))
    } else if id == ACTION_REDO@ {
        Some((true, true, false, "Z"@))
    } else if id == ACTION_CUT@ {
        Some((true, false, false, "X"@))
    } else if id == ACTION_COPY@ {
        Some((true, false, false, "C"@))
    } else if id == ACTION_PASTE@ {
        Some((true, false, false, "V"@))
    } else if id == ACTION_SELECT_ALL@ {
        Some((true, false, false, "A"@))
    } else if id == ACTION_DUPLICATE@ {
        Some((true, false, false, "D"@))
    } else if id == ACTION_DELETE@ {
        Some((false, false, false, "Delete"@))
    } else if id == ACTION_TRANSPOSE_UP@ {
        Some((false, true, false, "ArrowUp"@))
    } else if id == ACTION_TRANSPOSE_DOWN@ {
        Some((false, true, false, "ArrowDown"@))
    } else if id == ACTION_TOGGLE_PLAY@ {
        Some((false, false, false, "Space"@))
    } else if id == ACTION_STOP@ {
        Some((false, false, false, "Escape"@))
    } else if id == ACTION_TOOL_SELECT@ {
        Some((false, false, false, "1"@))
    } else if id == ACTION_TOOL_SELECT_VERTICAL@ {
        Some((false, false, false, "2"@))
    } else if id == ACTION_TOOL_PAN@ {
        Some((false, false, false, "3"@))
    } else if id == ACTION_TOOL_PENCIL@ {
        Some((false, false, false, "4"@))
    } else if id == ACTION_TOOL_CURVE@ {
        Some((false, false, false, "5"@))
    } else if id == ACTION_TOOL_SCISSORS@ {
        Some((false, false, false, "6"@))
    } else if id == ACTION_TOOL_ERASER@ {
        Some((false, false, false, "7"@))
    } else {
        None
    }
}

/// The default list of an action: its default shortcut, or nothing.
pub open spec fn spec_default_list(id: Seq<char>) -> Seq<ComboView> {
    match spec_default_combo(id) {
        Some(c) => seq![c],
        None => Seq::empty(),
    }
}

/// The default shortcut of an action; `None` when it has none by default.
pub fn default_combo(action_id: &str) -> (r: Option<KeyCombo>)
    ensures
        match r {
            Some(c) => spec_default_combo(action_id@) == Some(c@),
            None => spec_default_combo(action_id@) is None,
        },
{
    if str_eq(action_id, ACTION_NEW_PROJECT) {
        Some(KeyCombo::new(true, false, false, "N"))
    } else if str_eq(action_id, ACTION_OPEN) {
        Some(KeyCombo::new(true, false, false, "O"))
    } else if str_eq(action_id, ACTION_SAVE) {
        Some(KeyCombo::new(true, false, false, "S"))
    } else if str_eq(action_id, ACTION_SAVE_AS) {
        Some(KeyCombo::new(true, true, false, "S"))
    } else if str_eq(action_id, ACTION_CLOSE_DOCUMENT) {
        Some(KeyCombo::new(true, false, false, "W"))
    } else if str_eq(action_id, ACTION_EXPORT_AUDIO) {
        None
    } else if str_eq(action_id, ACTION_EXPORT_MIDI) {
        None
    } else if str_eq(action_id, ACTION_SETTINGS) {
        Some(KeyCombo::new(true, false, false, "Comma"))
    } else if str_eq(action_id, ACTION_EXIT) {
        Some(KeyCombo::new(true, false, false, "Q"))
    } else if str_eq(action_id, ACTION_UNDO) {
        Some(KeyCombo::new(true, false, false, "Z"))
    } else if str_eq(action_id, ACTION_REDO) {
        Some(KeyCombo::new(true, true, false, "Z"))
    } else if str_eq(action_id, ACTION_CUT) {
        Some(KeyCombo::new(true, false, false, "X"))
    } else if str_eq(action_id, ACTION_COPY) {
        Some(KeyCombo::new(true, false, false, "C"))
    } else if str_eq(action_id, ACTION_PASTE) {
        Some(KeyCombo::new(true, false, false, "V"))
    } else if str_eq(action_id, ACTION_SELECT_ALL) {
        Some(KeyCombo::new(true, false, false, "A"))
    } else if str_eq(action_id, ACTION_DUPLICATE) {
        Some(KeyCombo::new(true, false, false, "D"))
    } else if str_eq(action_id, ACTION_DELETE) {
        Some(KeyCombo::new(false, false, false, "Delete"))
    } else if str_eq(action_id, ACTION_TRANSPOSE_UP) {
        Some(KeyCombo::new(false, true, false, "ArrowUp"))
    } else if str_eq(action_id, ACTION_TRANSPOSE_DOWN) {
        Some(KeyCombo::new(false, true, false, "ArrowDown"))
    } else if str_eq(action_id, ACTION_TOGGLE_PLAY) {
        Some(KeyCombo::new(false, false, false, "Space"))
    } else if str_eq(action_id, ACTION_STOP) {
        Some(KeyCombo::new(false, false, false, "Escape"))
    } else if str_eq(action_id, ACTION_TOOL_SELECT) {
        Some(KeyCombo::new(false, false, false, "1"))
    } else if str_eq(action_id, ACTION_TOOL_SELECT_VERTICAL) {
        Some(KeyCombo::new(false, false, false, "2"))
    } else if str_eq(action_id, ACTION_TOOL_PAN) {
        Some(KeyCombo::new(false, false, false, "3"))
    } else if str_eq(action_id, ACTION_TOOL_PENCIL) {
        Some(KeyCombo::new(false, false, false, "4"))
    } else if str_eq(action_id, ACTION_TOOL_CURVE) {
        Some(KeyCombo::new(false, false, false, "5"))
    } else if str_eq(action_id, ACTION_TOOL_SCISSORS) {
        Some(KeyCombo::new(false, false, false, "6"))
    } else if str_eq(action_id, ACTION_TOOL_ERASER) {
        Some(KeyCombo::new(false, false, false, "7"))
    } else {
        None
    }
}

fn default_list(action_id: &str) -> (r: Vec<KeyCombo>)
    ensures
        combos_view(r@) == spec_default_list(action_id@),
{
    let mut r: Vec<KeyCombo> = Vec::new();
    match default_combo(action_id) {
        Some(c) => {
            r.push(c);
            proof {
                assert(combos_view(r@) =~= spec_default_list(action_id@));
            }
        },
        None => {
            proof {
                assert(combos_view(r@) =~= spec_default_list(action_id@));
            }
        },
    }
    r
}

/// A table entry as plain values.
pub open spec fn entry_view(e: (String, Vec<KeyCombo>)) -> (Seq<char>, Seq<ComboView>) {
    (e.0@, combos_view(e.1@))
}

/// The list stored under key `k`: the first entry with that key.
pub open spec fn lookup(es: Seq<(Seq<char>, Seq<ComboView>)>, k: Seq<char>) -> Option<Seq<ComboView>>
    decreases es.len(),
{
    if es.len() == 0 {
        None
    } else if es[0].0 == k {
        Some(es[0].1)
    } else {
        lookup(es.drop_first(), k)
    }
}

/// No two entries share a key.
pub open spec fn keys_unique(es: Seq<(Seq<char>, Seq<ComboView>)>) -> bool {
    forall|i: int, j: int| 0 <= i < j < es.len() ==> #[trigger] es[i].0 != #[trigger] es[j].0
}

/// `a` sorts before `b`: character by character (by code point), a proper
/// prefix first; the order of `String` keys in an ordered map.
pub open spec fn key_lt(a: Seq<char>, b: Seq<char>) -> bool
    decreases a.len(),
{
    if a.len() == 0 {
        b.len() > 0
    } else if b.len() == 0 {
        false
    } else if a[0] != b[0] {
        a[0] < b[0]
    } else {
        key_lt(a.drop_first(), b.drop_first())
    }
}

/// The entries are in increasing key order.
pub open spec fn keys_sorted(es: Seq<(Seq<char>, Seq<ComboView>)>) -> bool {
    forall|i: int, j: int| 0 <= i < j < es.len() ==> key_lt(#[trigger] es[i].0, #[trigger] es[j].0)
}

proof fn lemma_key_lt_irreflexive(a: Seq<char>)
    ensures
        !key_lt(a, a),
    decreases a.len(),
{
    if a.len() > 0 {
        lemma_key_lt_irreflexive(a.drop_first());
    }
}

proof fn lemma_key_lt_total(a: Seq<char>, b: Seq<char>)
    ensures
        a == b || key_lt(a, b) || key_lt(b, a),
    decreases a.len(),
{
    if a.len() > 0 && b.len() > 0 && a[0] == b[0] {
        lemma_key_lt_total(a.drop_first(), b.drop_first());
        if a.drop_first() == b.drop_first() {
            assert(a =~= seq![a[0]] + a.drop_first());
            assert(b =~= seq![b[0]] + b.drop_first());
        }
    } else if a.len() > 0 && b.len() > 0 {
        assert(a[0] != b[0]);
    } else if a.len() == 0 && b.len() == 0 {
        assert(a =~= b);
    }
}

proof fn lemma_key_lt_transitive(a: Seq<char>, b: Seq<char>, c: Seq<char>)
    requires
        key_lt(a, b),
        key_lt(b, c),
    ensures
        key_lt(a, c),
    decreases a.len(),
{
    if a.len() > 0 && b.len() > 0 && c.len() > 0 && a[0] == b[0] && b[0] == c[0] {
        lemma_key_lt_transitive(a.drop_first(), b.drop_first(), c.drop_first());
    }
}

/// Whether `a` sorts before `b` (see `key_lt`).
fn str_lt(a: &str, b: &str) -> (r: bool)
    ensures
        r == key_lt(a@, b@),
{
    let ca = chars_of(a);
    let cb = chars_of(b);
    let mut i: usize = 0;
    proof {
        assert(a@.skip(0) =~= a@);
        assert(b@.skip(0) =~= b@);
    }
    while i < ca.len() && i < cb.len() && ca[i] == cb[i]
        invariant
            i <= ca@.len(),
            i <= cb@.len(),
            ca@ == a@,
            cb@ == b@,
            key_lt(a@, b@) == key_lt(a@.skip(i as int), b@.skip(i as int)),
        decreases ca@.len() - i,
    {
        proof {
            assert(a@.skip(i as int).drop_first() =~= a@.skip(i + 1));
            assert(b@.skip(i as int).drop_first() =~= b@.skip(i + 1));
        }
        i += 1;
    }
    proof {
        if i < ca@.len() {
            assert(a@.skip(i as int)[0] == ca@[i as int]);
        }
        if i < cb@.len() {
            assert(b@.skip(i as int)[0] == cb@[i as int]);
        }
    }
    if i == ca.len() {
        i < cb.len()
    } else if i == cb.len() {
        false
    } else {
        ca[i] < cb[i]
    }
}

/// The map that a list of entries stands for.
pub open spec fn as_map(es: Seq<(Seq<char>, Seq<ComboView>)>) -> Map<Seq<char>, Seq<ComboView>> {
    Map::new(|k: Seq<char>| lookup(es, k) is Some, |k: Seq<char>| lookup(es, k)->0)
}

proof fn lemma_lookup(es: Seq<(Seq<char>, Seq<ComboView>)>)
    requires
        keys_unique(es),
    ensures
        forall|i: int| 0 <= i < es.len() ==> #[trigger] lookup(es, es[i].0) == Some(es[i].1),
        forall|k: Seq<char>|
            (forall|i: int| 0 <= i < es.len() ==> es[i].0 != k) ==> #[trigger] lookup(es, k) is None,
    decreases es.len(),
{
    if es.len() > 0 {
        let rest = es.drop_first();
        assert(keys_unique(rest)) by {
            assert forall|i: int, j: int| 0 <= i < j < rest.len() implies #[trigger] rest[i].0
                != #[trigger] rest[j].0 by {
                assert(rest[i] == es[i + 1] && rest[j] == es[j + 1]);
            }
        }
        lemma_lookup(rest);
        assert forall|i: int| 0 <= i < es.len() implies #[trigger] lookup(es, es[i].0) == Some(es[i].1) by {
            if i > 0 {
                assert(es[0].0 != es[i].0);
                assert(rest[i - 1] == es[i]);
                assert(lookup(rest, rest[i - 1].0) == Some(rest[i - 1].1));
            }
        }
        assert forall|k: Seq<char>|
            (forall|i: int| 0 <= i < es.len() ==> es[i].0 != k) implies #[trigger] lookup(es, k) is None by {
            assert(es[0].0 != k);
            assert forall|i: int| 0 <= i < rest.len() implies rest[i].0 != k by {
                assert(rest[i] == es[i + 1]);
            }
            assert(lookup(rest, k) is None);
        }
    }
}

/// Action id → shortcut list; each key occurs once, the entries kept in key
/// order.
#[derive(Debug)]
pub struct ComboMap {
    entries: Vec<(String, Vec<KeyCombo>)>,
}

impl ComboMap {
    /// The entries as plain values, in table order.
    pub closed spec fn entries_view(&self) -> Seq<(Seq<char>, Seq<ComboView>)> {
        self.entries@.map_values(|e: (String, Vec<KeyCombo>)| entry_view(e))
    }

    #[verifier::type_invariant]
    closed spec fn inv(&self) -> bool {
        keys_unique(self.entries_view()) && keys_sorted(self.entries_view())
    }
}

impl View for ComboMap {
    type V = Map<Seq<char>, Seq<ComboView>>;

    closed spec fn view(&self) -> Map<Seq<char>, Seq<ComboView>> {
        as_map(self.entries_view())
    }
}

impl Clone for ComboMap {
    /// A copy with the same entries.
    fn clone(&self) -> (r: Self)
        ensures
            r@ == self@,
    {
        proof {
            use_type_invariant(self);
        }
        let mut entries: Vec<(String, Vec<KeyCombo>)> = Vec::new();
        let mut i: usize = 0;
        while i < self.entries.len()
            invariant
                i <= self.entries@.len(),
                entries@.len() == i,
                forall|j: int| 0 <= j < i ==> #[trigger] entry_view(entries@[j]) == entry_view(self.entries@[j]),
            decreases self.entries@.len() - i,
        {
            let key = self.entries[i].0.clone();
            let combos = copy_combos(&self.entries[i].1);
            entries.push((key, combos));
            i += 1;
        }
        proof {
            assert(entries@.map_values(|e: (String, Vec<KeyCombo>)| entry_view(e)) =~= self.entries_view());
        }
        ComboMap { entries }
    }
}

impl ComboMap {
    /// The entries in increasing key order; their keys are distinct.
    pub fn to_entries(&self) -> (r: Vec<(String, Vec<KeyCombo>)>)
        ensures
            keys_unique(r@.map_values(|e: (String, Vec<KeyCombo>)| entry_view(e))),
            keys_sorted(r@.map_values(|e: (String, Vec<KeyCombo>)| entry_view(e))),
            as_map(r@.map_values(|e: (String, Vec<KeyCombo>)| entry_view(e))) == self@,
    {
        proof {
            use_type_invariant(self);
        }
        let mut entries: Vec<(String, Vec<KeyCombo>)> = Vec::new();
        let mut i: usize = 0;
        while i < self.entries.len()
            invariant
                i <= self.entries@.len(),
                entries@.len() == i,
                forall|j: int| 0 <= j < i ==> #[trigger] entry_view(entries@[j]) == entry_view(self.entries@[j]),
            decreases self.entries@.len() - i,
        {
            let key = self.entries[i].0.clone();
            let combos = copy_combos(&self.entries[i].1);
            entries.push((key, combos));
            i += 1;
        }
        proof {
            assert(entries@.map_values(|e: (String, Vec<KeyCombo>)| entry_view(e)) =~= self.entries_view());
        }
        entries
    }

    /// An empty table.
    pub fn new() -> (r: Self)
        ensures
            r@ == Map::<Seq<char>, Seq<ComboView>>::empty(),
    {
        let r = ComboMap { entries: Vec::new() };
        proof {
            assert(r.entries_view() =~= Seq::empty());
            assert(r@ =~= Map::<Seq<char>, Seq<ComboView>>::empty());
        }
        r
    }

    /// Position of the entry with key `key`.
    fn find(&self, key: &str) -> (r: Option<usize>)
        ensures
            match r {
                Some(i) => i < self.entries_view().len() && self.entries_view()[i as int].0 == key@,
                None => forall|i: int|
                    0 <= i < self.entries_view().len() ==> self.entries_view()[i].0 != key@,
            },
    {
        let mut i: usize = 0;
        while i < self.entries.len()
            invariant
                i <= self.entries@.len(),
                forall|j: int| 0 <= j < i ==> self.entries_view()[j].0 != key@,
            decreases self.entries@.len() - i,
        {
            if str_eq(self.entries[i].0.as_str(), key) {
                return Some(i);
            }
            i += 1;
        }
        None
    }

    /// Whether the table has an entry for `key`.
    pub fn contains_key(&self, key: &str) -> (r: bool)
        ensures
            r == self@.contains_key(key@),
    {
        proof {
            use_type_invariant(self);
            lemma_lookup(self.entries_view());
        }
        match self.find(key) {
            Some(i) => {
                proof {
                    assert(lookup(self.entries_view(), self.entries_view()[i as int].0) is Some);
                }
                true
            },
            None => false,
        }
    }

    /// The list stored under `key`.
    pub fn get(&self, key: &str) -> (r: Option<&Vec<KeyCombo>>)
        ensures
            match r {
                Some(v) => self@.contains_key(key@) && combos_view(v@) == self@[key@],
                None => !self@.contains_key(key@),
            },
    {
        proof {
            use_type_invariant(self);
            lemma_lookup(self.entries_view());
        }
        match self.find(key) {
            Some(i) => {
                proof {
                    assert(lookup(self.entries_view(), self.entries_view()[i as int].0) == Some(
                        self.entries_view()[i as int].1,
                    ));
                }
                Some(&self.entries[i].1)
            },
            None => None,
        }
    }

    /// Where an entry for `key` goes to keep the keys in order: after every
    /// key that sorts before it.
    fn insert_position(&self, key: &str) -> (k: usize)
        ensures
            k <= self.entries_view().len(),
            forall|j: int| 0 <= j < k ==> key_lt(#[trigger] self.entries_view()[j].0, key@),
            k < self.entries_view().len() ==> !key_lt(self.entries_view()[k as int].0, key@),
    {
        let mut k: usize = 0;
        while k < self.entries.len() && str_lt(self.entries[k].0.as_str(), key)
            invariant
                k <= self.entries@.len(),
                forall|j: int| 0 <= j < k ==> key_lt(#[trigger] self.entries_view()[j].0, key@),
            decreases self.entries@.len() - k,
        {
            k += 1;
        }
        k
    }

    /// Stores `combos` under `key`, replacing any list there; a new key is
    /// placed in key order.
    pub fn insert(&mut self, key: &str, combos: Vec<KeyCombo>)
        ensures
            final(self)@ == old(self)@.insert(key@, combos_view(combos@)),
    {
        proof {
            use_type_invariant(&*self);
            lemma_lookup(self.entries_view());
        }
        let ghost es = self.entries_view();
        let ghost cv = combos_view(combos@);
        let found = self.find(key);
        let pos = self.insert_position(key);
        let mut entries: Vec<(String, Vec<KeyCombo>)> = Vec::new();
        std::mem::swap(&mut entries, &mut self.entries);
        let ghost nes: Seq<(Seq<char>, Seq<ComboView>)>;
        // index in `nes` of the new entry, and of each old entry
        let ghost ki: int;
        let ghost shifted: spec_fn(int) -> int;
        match found {
            Some(i) => {
                entries.set(i, (owned(key), combos));
                proof {
                    nes = es.update(i as int, (key@, cv));
                    ki = i as int;
                    shifted = |j: int| j;
                    assert(entries@.map_values(|e: (String, Vec<KeyCombo>)| entry_view(e)) =~= nes);
                    assert(keys_sorted(nes)) by {
                        assert forall|a: int, b: int| 0 <= a < b < nes.len() implies key_lt(
                            #[trigger] nes[a].0,
                            #[trigger] nes[b].0,
                        ) by {
                            assert(nes[a].0 == es[a].0 && nes[b].0 == es[b].0);
                        }
                    }
                }
            },
            None => {
                entries.insert(pos, (owned(key), combos));
                proof {
                    let k = pos as int;
                    nes = es.insert(k, (key@, cv));
                    ki = k;
                    shifted = |j: int| if j < k { j } else { j + 1 };
                    assert(entries@.map_values(|e: (String, Vec<KeyCombo>)| entry_view(e)) =~= nes);
                    if k < es.len() {
                        assert(es[k].0 != key@);
                        lemma_key_lt_total(es[k].0, key@);
                        assert(key_lt(key@, es[k].0));
                    }
                    assert(keys_sorted(nes)) by {
                        assert forall|a: int, b: int| 0 <= a < b < nes.len() implies key_lt(
                            #[trigger] nes[a].0,
                            #[trigger] nes[b].0,
                        ) by {
                            if b < k {
                                assert(nes[a] == es[a] && nes[b] == es[b]);
                            } else if b == k {
                                assert(nes[a] == es[a]);
                            } else if a < k {
                                assert(nes[a] == es[a] && nes[b] == es[b - 1]);
                            } else if a == k {
                                assert(nes[b] == es[b - 1]);
                                if b - 1 > k {
                                    lemma_key_lt_transitive(key@, es[k].0, es[b - 1].0);
                                }
                            } else {
                                assert(nes[a] == es[a - 1] && nes[b] == es[b - 1]);
                            }
                        }
                    }
                }
            },
        }
        proof {
            assert(keys_unique(nes)) by {
                assert forall|a: int, b: int| 0 <= a < b < nes.len() implies #[trigger] nes[a].0
                    != #[trigger] nes[b].0 by {
                    assert(key_lt(nes[a].0, nes[b].0));
                    lemma_key_lt_irreflexive(nes[a].0);
                }
            }
            assert(nes[ki] == (key@, cv));
            assert forall|j: int| 0 <= j < es.len() && es[j].0 != key@ implies 0 <= #[trigger] shifted(j) < nes.len()
                && shifted(j) != ki && nes[shifted(j)] == es[j] by {
                if found is None {
                    if j < pos as int {
                        assert(nes[j] == es[j]);
                    } else {
                        assert(nes[j + 1] == es[j]);
                    }
                }
            }
            assert forall|j: int| 0 <= j < nes.len() && j != ki implies exists|m: int|
                0 <= m < es.len() && #[trigger] nes[j] == es[m] by {
                if found is Some {
                    assert(nes[j] == es[j]);
                } else if j < pos as int {
                    assert(nes[j] == es[j]);
                } else {
                    assert(nes[j] == es[j - 1]);
                }
            }
            lemma_lookup(nes);
            assert forall|k: Seq<char>| #[trigger] lookup(nes, k) == (if k == key@ {
                Some(cv)
            } else {
                lookup(es, k)
            }) by {
                if k == key@ {
                    assert(lookup(nes, nes[ki].0) == Some(nes[ki].1));
                } else if exists|j: int| 0 <= j < es.len() && es[j].0 == k {
                    let j = choose|j: int| 0 <= j < es.len() && es[j].0 == k;
                    let jn = shifted(j);
                    assert(nes[jn] == es[j]);
                    assert(lookup(nes, nes[jn].0) == Some(nes[jn].1));
                    assert(lookup(es, es[j].0) == Some(es[j].1));
                } else {
                    assert forall|j: int| 0 <= j < nes.len() implies nes[j].0 != k by {
                        if j != ki {
                            let m = choose|m: int| 0 <= m < es.len() && nes[j] == es[m];
                            assert(es[m].0 != k);
                        }
                    }
                }
            }
            assert(as_map(nes) =~= as_map(es).insert(key@, cv));
        }
        self.entries = entries;
    }

    /// Removes the entry for `key`, if any.
    pub fn remove(&mut self, key: &str)
        ensures
            final(self)@ == old(self)@.remove(key@),
    {
        proof {
            use_type_invariant(&*self);
            lemma_lookup(self.entries_view());
        }
        let ghost es = self.entries_view();
        match self.find(key) {
            Some(i) => {
                let mut entries: Vec<(String, Vec<KeyCombo>)> = Vec::new();
                std::mem::swap(&mut entries, &mut self.entries);
                entries.remove(i);
                let ghost nes = es.remove(i as int);
                proof {
                    assert(entries@.map_values(|e: (String, Vec<KeyCombo>)| entry_view(e)) =~= nes);
                    assert(keys_unique(nes) && keys_sorted(nes)) by {
                        assert forall|a: int, b: int| 0 <= a < b < nes.len() implies #[trigger] nes[a].0
                            != #[trigger] nes[b].0 && key_lt(nes[a].0, nes[b].0) by {
                            let a0 = if a < i { a } else { a + 1 };
                            let b0 = if b < i { b } else { b + 1 };
                            assert(nes[a] == es[a0] && nes[b] == es[b0]);
                        }
                    }
                    lemma_lookup(nes);
                    assert forall|k: Seq<char>| #[trigger] lookup(nes, k) == (if k == key@ {
                        None
                    } else {
                        lookup(es, k)
                    }) by {
                        if k == key@ {
                            assert forall|j: int| 0 <= j < nes.len() implies nes[j].0 != k by {
                                let j0 = if j < i { j } else { j + 1 };
                                assert(nes[j] == es[j0]);
                                assert(j0 != i);
                            }
                        } else if exists|j: int| 0 <= j < es.len() && es[j].0 == k {
                            let j = choose|j: int| 0 <= j < es.len() && es[j].0 == k;
                            assert(j != i);
                            let jn = if j < i { j } else { j - 1 };
                            assert(nes[jn] == es[j]);
                            assert(lookup(nes, nes[jn].0) == Some(nes[jn].1));
                            assert(lookup(es, es[j].0) == Some(es[j].1));
                        } else {
                            assert forall|j: int| 0 <= j < nes.len() implies nes[j].0 != k by {
                                let j0 = if j < i { j } else { j + 1 };
                                assert(nes[j] == es[j0]);
                            }
                        }
                    }
                    assert(as_map(nes) =~= as_map(es).remove(key@));
                }
                self.entries = entries;
            },
            None => {
                proof {
                    assert(as_map(es) =~= as_map(es).remove(key@));
                }
            },
        }
    }
}

/// The shortcut list of an action in table `m`: the table's list when it has
/// one (an empty list disables the action), else the action's default.
pub open spec fn spec_get(m: Map<Seq<char>, Seq<ComboView>>, id: Seq<char>) -> Seq<ComboView> {
    if m.contains_key(id) {
        m[id]
    } else {
        spec_default_list(id)
    }
}

/// The default table: every action of `spec_all_action_ids` with its default list.
pub open spec fn is_default_table(m: Map<Seq<char>, Seq<ComboView>>) -> bool {
    &&& forall|k: Seq<char>| #[trigger] m.contains_key(k) <==> spec_all_action_ids().contains(k)
    &&& forall|k: Seq<char>| #[trigger] m.contains_key(k) ==> m[k] == spec_default_list(k)
}

/// The table after adding `c` to action `id`: unchanged when the action's
/// list already has it, else the list with `c` appended is stored.
pub open spec fn spec_add(m: Map<Seq<char>, Seq<ComboView>>, id: Seq<char>, c: ComboView) -> Map<
    Seq<char>,
    Seq<ComboView>,
> {
    if spec_get(m, id).contains(c) {
        m
    } else {
        m.insert(id, spec_get(m, id).push(c))
    }
}

/// The shortcuts other than `c`.
pub open spec fn other_than(c: ComboView) -> spec_fn(ComboView) -> bool {
    |x: ComboView| x != c
}

/// The table after removing `c` from action `id`: the list without `c` is stored.
pub open spec fn spec_remove(m: Map<Seq<char>, Seq<ComboView>>, id: Seq<char>, c: ComboView) -> Map<
    Seq<char>,
    Seq<ComboView>,
> {
    m.insert(id, spec_get(m, id).filter(other_than(c)))
}

/// Reading an action after setting its list gives that list back (an empty
/// list disables the action rather than falling back to the default); the
/// other actions read as before.
pub proof fn lemma_get_after_set(m: Map<Seq<char>, Seq<ComboView>>, id: Seq<char>, v: Seq<ComboView>)
    ensures
        spec_get(m.insert(id, v), id) == v,
        forall|other: Seq<char>| other != id ==> #[trigger] spec_get(m.insert(id, v), other) == spec_get(m, other),
{
}

/// Adding a shortcut twice is the same as adding it once, and the action
/// then has it.
pub proof fn lemma_add_idempotent(m: Map<Seq<char>, Seq<ComboView>>, id: Seq<char>, c: ComboView)
    ensures
        spec_add(spec_add(m, id, c), id, c) == spec_add(m, id, c),
        spec_get(spec_add(m, id, c), id).contains(c),
{
    if !spec_get(m, id).contains(c) {
        let l = spec_get(m, id).push(c);
        assert(l[l.len() - 1] == c);
    }
}

/// After removing a shortcut the action no longer has it; its other
/// shortcuts stay, in order.
pub proof fn lemma_remove_drops_combo(m: Map<Seq<char>, Seq<ComboView>>, id: Seq<char>, c: ComboView)
    ensures
        !spec_get(spec_remove(m, id, c), id).contains(c),
        spec_get(spec_remove(m, id, c), id) == spec_get(m, id).filter(other_than(c)),
{
    let f = spec_get(m, id).filter(other_than(c));
    assert(spec_get(spec_remove(m, id, c), id) == f);
    if f.contains(c) {
        let i = choose|i: int| 0 <= i < f.len() && f[i] == c;
        spec_get(m, id).lemma_filter_pred(other_than(c), i);
    }
}

/// Shortcut table: action id → list of key combinations (empty = none).
/// One action may have several shortcuts; the list order is the display order.
#[derive(Clone, Debug)]
pub struct Keybindings {
    pub map: ComboMap,
}

impl View for Keybindings {
    type V = Map<Seq<char>, Seq<ComboView>>;

    open spec fn view(&self) -> Map<Seq<char>, Seq<ComboView>> {
        self.map@
    }
}

impl Default for Keybindings {
    /// Every action with its platform default.
    fn default() -> (r: Self)
        ensures
            is_default_table(r@),
    {
        let ids = all_action_ids();
        let mut map = ComboMap::new();
        let mut i: usize = 0;
        while i < ids.len()
            invariant
                i <= ids@.len(),
                ids@.map_values(|s: &str| s@) == spec_all_action_ids(),
                forall|k: Seq<char>| #[trigger] map@.contains_key(k) <==> exists|j: int| 0 <= j < i && ids@[j]@ == k,
                forall|k: Seq<char>| #[trigger] map@.contains_key(k) ==> map@[k] == spec_default_list(k),
            decreases ids@.len() - i,
        {
            let id = ids[i];
            let ghost prev = map@;
            map.insert(id, default_list(id));
            proof {
                assert forall|k: Seq<char>| #[trigger] map@.contains_key(k) <==> exists|j: int|
                    0 <= j < i + 1 && ids@[j]@ == k by {
                    if k == id@ {
                        assert(ids@[i as int]@ == k);
                    }
                    if exists|j: int| 0 <= j < i + 1 && ids@[j]@ == k {
                        let j = choose|j: int| 0 <= j < i + 1 && ids@[j]@ == k;
                        if j < i {
                            assert(prev.contains_key(k)) by {
                                assert(exists|j2: int| 0 <= j2 < i && ids@[j2]@ == k);
                            }
                        }
                    }
                }
            }
            i += 1;
        }
        proof {
            assert forall|k: Seq<char>| #[trigger] map@.contains_key(k) <==> spec_all_action_ids().contains(k) by {
                if map@.contains_key(k) {
                    let j = choose|j: int| 0 <= j < ids@.len() && ids@[j]@ == k;
                    assert(spec_all_action_ids()[j] == k);
                }
                if spec_all_action_ids().contains(k) {
                    let j = choose|j: int| 0 <= j < spec_all_action_ids().len() && spec_all_action_ids()[j] == k;
                    assert(ids@[j]@ == k);
                }
            }
        }
        Keybindings { map }
    }
}

impl Keybindings {
    /// The shortcut list of an action: the table's entry (even an empty one),
    /// or the action's default when the table has none (e.g. an older config).
    pub fn get(&self, action_id: &str) -> (r: Vec<KeyCombo>)
        ensures
            combos_view(r@) == spec_get(self@, action_id@),
    {
        match self.map.get(action_id) {
            Some(combos) => copy_combos(combos),
            None => default_list(action_id),
        }
    }

    /// Sets the shortcut list of an action (an empty list disables it).
    pub fn set(&mut self, action_id: &str, combos: Vec<KeyCombo>)
        ensures
            final(self)@ == old(self)@.insert(action_id@, combos_view(combos@)),
    {
        self.map.insert(action_id, combos);
    }

    /// Adds a shortcut to an action, unless the action already has it.
    pub fn add(&mut self, action_id: &str, combo: KeyCombo)
        ensures
            final(self)@ == spec_add(old(self)@, action_id@, combo@),
    {
        let mut combos = self.get(action_id);
        let ghost cur = spec_get(self@, action_id@);
        let mut i: usize = 0;
        while i < combos.len()
            invariant
                i <= combos@.len(),
                combos_view(combos@) == cur,
                cur == spec_get(old(self)@, action_id@),
                *self == *old(self),
                forall|j: int| 0 <= j < i ==> cur[j] != combo@,
            decreases combos@.len() - i,
        {
            if combos[i].same_as(&combo) {
                proof {
                    assert(cur[i as int] == combo@);
                    assert(cur.contains(combo@));
                }
                return ;
            }
            i += 1;
        }
        let ghost cv = combo@;
        combos.push(combo);
        proof {
            assert(!cur.contains(cv));
            assert(combos_view(combos@) =~= cur.push(cv));
        }
        self.set(action_id, combos);
    }

    /// Removes a shortcut from an action; an emptied list disables it.
    pub fn remove(&mut self, action_id: &str, combo: &KeyCombo)
        ensures
            final(self)@ == spec_remove(old(self)@, action_id@, combo@),
    {
        let combos = self.get(action_id);
        let ghost cur = spec_get(self@, action_id@);
        let ghost pred = other_than(combo@);
        let mut kept: Vec<KeyCombo> = Vec::new();
        let mut i: usize = 0;
        while i < combos.len()
            invariant
                i <= combos@.len(),
                combos_view(combos@) == cur,
                pred == other_than(combo@),
                combos_view(kept@) == cur.take(i as int).filter(pred),
            decreases combos@.len() - i,
        {
            proof {
                assert(cur.take(i + 1) =~= cur.take(i as int).push(cur[i as int]));
                cur.take(i as int).lemma_filter_push(cur[i as int], pred);
            }
            if !combos[i].same_as(combo) {
                kept.push(combos[i].duplicate());
                proof {
                    assert(combos_view(kept@) =~= cur.take(i as int).filter(pred).push(cur[i as int]));
                }
            }
            i += 1;
        }
        proof {
            assert(cur.take(i as int) =~= cur);
        }
        self.set(action_id, kept);
    }

    /// Restores every action to its platform default.
    pub fn reset_to_defaults(&mut self)
        ensures
            is_default_table(final(self)@),
    {
        *self = Self::default();
    }
}

/// A stored shortcut list: a list (current format), or a single combination
/// or `null` (older configurations).
pub enum StoredCombos {
    List(Vec<KeyCombo>),
    Single(Option<KeyCombo>),
}

/// The list a stored value stands for: the list itself, the single
/// combination, or nothing for `null`.
pub open spec fn stored_view(c: StoredCombos) -> Seq<ComboView> {
    match c {
        StoredCombos::List(v) => combos_view(v@),
        StoredCombos::Single(Some(k)) => seq![k@],
        StoredCombos::Single(None) => Seq::empty(),
    }
}

/// The list of a stored value, reading older single-combination entries.
pub fn combos_from_stored(c: StoredCombos) -> (r: Vec<KeyCombo>)
    ensures
        combos_view(r@) == stored_view(c),
{
    match c {
        StoredCombos::List(v) => v,
        StoredCombos::Single(Some(k)) => {
            let ghost kv = k@;
            let r = vec![k];
            proof {
                assert(combos_view(r@) =~= seq![kv]);
            }
            r
        },
        StoredCombos::Single(None) => {
            let r: Vec<KeyCombo> = Vec::new();
            proof {
                assert(combos_view(r@) =~= Seq::<ComboView>::empty());
            }
            r
        },
    }
}

/// The table read from stored entries, each stored under its key in order.
pub open spec fn stored_table(es: Seq<(String, StoredCombos)>) -> Map<Seq<char>, Seq<ComboView>>
    decreases es.len(),
{
    if es.len() == 0 {
        Map::empty()
    } else {
        stored_table(es.drop_last()).insert(es.last().0@, stored_view(es.last().1))
    }
}

impl Keybindings {
    /// The table of a stored configuration.
    pub fn from_stored(entries: Vec<(String, StoredCombos)>) -> (r: Keybindings)
        ensures
            r@ == stored_table(entries@),
    {
        let mut map = ComboMap::new();
        let mut entries = entries;
        let ghost all = entries@;
        proof {
            assert(all.skip(0) =~= all);
            assert(all.take(0) =~= Seq::<(String, StoredCombos)>::empty());
        }
        while entries.len() > 0
            invariant
                entries@.len() <= all.len(),
                entries@ == all.skip(all.len() - entries@.len()),
                map@ == stored_table(all.take(all.len() - entries@.len())),
            decreases entries@.len(),
        {
            let ghost k = all.len() - entries@.len();
            let (key, c) = entries.remove(0);
            proof {
                assert(all[k] == (key, c)) by {
                    assert(all.skip(k)[0] == all[k]);
                }
                assert(all.take(k + 1).drop_last() =~= all.take(k));
                assert(entries@ =~= all.skip(k + 1));
            }
            map.insert(key.as_str(), combos_from_stored(c));
        }
        proof {
            assert(all.take(all.len() as int) =~= all);
        }
        Keybindings { map }
    }
}

proof fn lemma_lookup_push(s: Seq<(Seq<char>, Seq<ComboView>)>, x: (Seq<char>, Seq<ComboView>), k: Seq<char>)
    ensures
        lookup(s.push(x), k) == if lookup(s, k) is Some {
            lookup(s, k)
        } else if x.0 == k {
            Some(x.1)
        } else {
            None
        },
    decreases s.len(),
{
    if s.len() > 0 {
        assert(s.push(x)[0] == s[0]);
        assert(s.push(x).drop_first() =~= s.drop_first().push(x));
        lemma_lookup_push(s.drop_first(), x, k);
    } else {
        assert(s.push(x)[0] == x);
        assert(s.push(x).drop_first() =~= Seq::<(Seq<char>, Seq<ComboView>)>::empty());
        assert(lookup(s.push(x).drop_first(), k) is None);
    }
}

/// The entries written out as lists.
pub open spec fn as_stored(es: Seq<(String, Vec<KeyCombo>)>) -> Seq<(String, StoredCombos)> {
    es.map_values(|e: (String, Vec<KeyCombo>)| (e.0, StoredCombos::List(e.1)))
}

/// Writing a table out (each entry as a list, keys distinct, as `to_entries`
/// gives them) and reading it back with `from_stored` gives the same table.
pub proof fn lemma_write_read_roundtrip(es: Seq<(String, Vec<KeyCombo>)>)
    requires
        keys_unique(es.map_values(|e: (String, Vec<KeyCombo>)| entry_view(e))),
    ensures
        stored_table(as_stored(es)) == as_map(es.map_values(|e: (String, Vec<KeyCombo>)| entry_view(e))),
    decreases es.len(),
{
    let v = es.map_values(|e: (String, Vec<KeyCombo>)| entry_view(e));
    if es.len() == 0 {
        assert(as_map(v) =~= Map::<Seq<char>, Seq<ComboView>>::empty());
    } else {
        let d = es.drop_last();
        let dv = d.map_values(|e: (String, Vec<KeyCombo>)| entry_view(e));
        assert(dv =~= v.drop_last());
        assert(keys_unique(dv)) by {
            assert forall|i: int, j: int| 0 <= i < j < dv.len() implies #[trigger] dv[i].0 != #[trigger] dv[j].0 by {
                assert(dv[i] == v[i] && dv[j] == v[j]);
            }
        }
        lemma_write_read_roundtrip(d);
        assert(as_stored(es).drop_last() =~= as_stored(d));
        let x = v.last();
        assert(v =~= dv.push(x));
        // the last key occurs nowhere before the last entry
        lemma_lookup(dv);
        assert forall|i: int| 0 <= i < dv.len() implies dv[i].0 != x.0 by {
            assert(dv[i] == v[i]);
            assert(v[i].0 != v[v.len() - 1].0);
        }
        assert forall|k: Seq<char>| #[trigger] lookup(v, k) == if lookup(dv, k) is Some {
            lookup(dv, k)
        } else if x.0 == k {
            Some(x.1)
        } else {
            None
        } by {
            lemma_lookup_push(dv, x, k);
        }
        assert(as_map(v) =~= as_map(dv).insert(x.0, x.1));
    }
}

} // verus!
