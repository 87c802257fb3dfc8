//! Configurable keybinding registry.
//!
//! Widgets bind to a keybinding id (a dotted string such as
//! `tui.input.submit`) and ask whether a key matches it; they never hard-code
//! key sequences. Users may replace the keys of any id, and a key claimed by
//! more than one id is reported as a conflict rather than silently shadowed.
//!
//! A key is held as plain values: which key it is and its modifier bits
//! (the terminal layer converts its events into this form).

use vstd::prelude::*;
use crate::text::chars_of;
use crate::style::views;

verus! {

/// Which key was pressed.
#[derive(Clone, Copy, Debug, PartialEq, Eq, Structural)]
pub enum Key {
    Backspace,
    Enter,
    Left,
    Right,
    Up,
    Down,
    Home,
    End,
    PageUp,
    PageDown,
    Tab,
    BackTab,
    Delete,
    Insert,
    /// A function key, by number.
    F(u8),
    Char(char),
    Null,
    Esc,
    CapsLock,
    ScrollLock,
    NumLock,
    PrintScreen,
    Pause,
    Menu,
    KeypadBegin,
    /// A media key, by its index among the media keys.
    Media(u8),
    /// A lone modifier key, by its index among the modifier keys.
    Modifier(u8),
}

/// No modifier held.
pub const MOD_NONE: u8 = 0;

/// Shift held.
pub const MOD_SHIFT: u8 = 1;

/// Control held.
pub const MOD_CONTROL: u8 = 2;

/// A key pattern: the key and the modifier bits; two patterns are equal
/// when both are.
#[derive(Clone, Copy, Debug, PartialEq, Eq, Structural)]
pub struct KeyPattern {
    pub code: Key,
    pub modifiers: u8,
}

impl KeyPattern {
    /// The key with no modifier.
    pub fn bare(code: Key) -> (p: Self)
        ensures
            p == (KeyPattern { code, modifiers: MOD_NONE }),
    {
        KeyPattern { code, modifiers: MOD_NONE }
    }

    /// The key with Control.
    pub fn ctrl(code: Key) -> (p: Self)
        ensures
            p == (KeyPattern { code, modifiers: MOD_CONTROL }),
    {
        KeyPattern { code, modifiers: MOD_CONTROL }
    }

    /// The key with Shift.
    pub fn shift(code: Key) -> (p: Self)
        ensures
            p == (KeyPattern { code, modifiers: MOD_SHIFT }),
    {
        KeyPattern { code, modifiers: MOD_SHIFT }
    }
}

/// A binding id with its default keys and what it does.
pub struct KeyBinding {
    pub id: &'static str,
    pub default: Vec<KeyPattern>,
    pub description: &'static str,
}

/// Keys per binding id: an id and its patterns, ids distinct.
pub type Entries = Seq<(Seq<char>, Seq<KeyPattern>)>;

/// The default bindings: submit on Enter; Ctrl+C clears or aborts, Ctrl+D
/// exits, Ctrl+L redraws; arrows, Home, End and Backspace edit.
pub open spec fn default_table() -> Entries {
    seq![
        ("tui.input.submit"@, seq![KeyPattern { code: Key::Enter, modifiers: MOD_NONE }]),
        ("app.clear"@, seq![KeyPattern { code: Key::Char('c'), modifiers: MOD_CONTROL }]),
        ("app.exit"@, seq![KeyPattern { code: Key::Char('d'), modifiers: MOD_CONTROL }]),
        ("app.force_redraw"@, seq![KeyPattern { code: Key::Char('l'), modifiers: MOD_CONTROL }]),
        ("tui.editor.cursorLeft"@, seq![KeyPattern { code: Key::Left, modifiers: MOD_NONE }]),
        ("tui.editor.cursorRight"@, seq![KeyPattern { code: Key::Right, modifiers: MOD_NONE }]),
        ("tui.editor.cursorLineStart"@, seq![KeyPattern { code: Key::Home, modifiers: MOD_NONE }]),
        ("tui.editor.cursorLineEnd"@, seq![KeyPattern { code: Key::End, modifiers: MOD_NONE }]),
        (
            "tui.editor.deleteCharBackward"@,
            seq![KeyPattern { code: Key::Backspace, modifiers: MOD_NONE }],
        ),
    ]
}

/// A binding as values: its id and default keys.
pub open spec fn binding_view(b: KeyBinding) -> (Seq<char>, Seq<KeyPattern>) {
    (b.id@, b.default@)
}

/// A list of one pattern.
fn one(p: KeyPattern) -> (v: Vec<KeyPattern>)
    ensures
        v@ == seq![p],
{
    let mut v = Vec::new();
    v.push(p);
    assert(v@ =~= seq![p]);
    v
}

/// The default binding table with descriptions.
pub fn default_bindings() -> (v: Vec<KeyBinding>)
    ensures
        v@.map_values(|b: KeyBinding| binding_view(b)) == default_table(),
{
    let v = vec![
        KeyBinding {
            id: "tui.input.submit",
            default: one(KeyPattern::bare(Key::Enter)),
            description: "submit the current input",
        },
        KeyBinding {
            id: "app.clear",
            default: one(KeyPattern::ctrl(Key::Char('c'))),
            description: "abort the current turn (or clear input)",
        },
        KeyBinding {
            id: "app.exit",
            default: one(KeyPattern::ctrl(Key::Char('d'))),
            description: "quit (when input is empty)",
        },
        KeyBinding {
            id: "app.force_redraw",
            default: one(KeyPattern::ctrl(Key::Char('l'))),
            description: "force a full screen redraw",
        },
        KeyBinding {
            id: "tui.editor.cursorLeft",
            default: one(KeyPattern::bare(Key::Left)),
            description: "move cursor left one grapheme",
        },
        KeyBinding {
            id: "tui.editor.cursorRight",
            default: one(KeyPattern::bare(Key::Right)),
            description: "move cursor right one grapheme",
        },
        KeyBinding {
            id: "tui.editor.cursorLineStart",
            default: one(KeyPattern::bare(Key::Home)),
            description: "move cursor to line start",
        },
        KeyBinding {
            id: "tui.editor.cursorLineEnd",
            default: one(KeyPattern::bare(Key::End)),
            description: "move cursor to line end",
        },
        KeyBinding {
            id: "tui.editor.deleteCharBackward",
            default: one(KeyPattern::bare(Key::Backspace)),
            description: "delete the grapheme before the cursor",
        },
    ];
    assert(v@.map_values(|b: KeyBinding| binding_view(b)) =~= default_table());
    v
}

/// Where `id` stands among the entries.
pub open spec fn index_of(es: Entries, id: Seq<char>) -> Option<int>
    decreases es.len(),
{
    if es.len() == 0 {
        None
    } else if es[0].0 == id {
        Some(0)
    } else {
        match index_of(es.drop_first(), id) {
            Some(i) => Some(i + 1),
            None => None,
        }
    }
}

/// The keys of `id`, if it is bound.
pub open spec fn lookup(es: Entries, id: Seq<char>) -> Option<Seq<KeyPattern>> {
    match index_of(es, id) {
        Some(i) => Some(es[i].1),
        None => None,
    }
}

/// `id` bound to `pats`: its entry replaced, or a new entry at the end.
pub open spec fn set_entry(es: Entries, id: Seq<char>, pats: Seq<KeyPattern>) -> Entries {
    match index_of(es, id) {
        Some(i) => es.update(i, (id, pats)),
        None => es.push((id, pats)),
    }
}

/// No id occurs twice.
pub open spec fn distinct_ids(es: Entries) -> bool {
    forall|i: int, j: int| 0 <= i < j < es.len() ==> es[i].0 != es[j].0
}

/// The overrides applied in order, each replacing the keys of its id.
pub open spec fn apply_overrides(es: Entries, ovs: Entries) -> Entries
    decreases ovs.len(),
{
    if ovs.len() == 0 {
        es
    } else {
        set_entry(apply_overrides(es, ovs.drop_last()), ovs.last().0, ovs.last().1)
    }
}

/// The resolved bindings: the defaults with the overrides applied.
pub open spec fn resolved(ovs: Entries) -> Entries {
    apply_overrides(default_table(), ovs)
}

/// The ids whose keys include `p`, in entry order.
pub open spec fn claimants(es: Entries, p: KeyPattern) -> Seq<Seq<char>>
    decreases es.len(),
{
    if es.len() == 0 {
        seq![]
    } else {
        claimants(es.drop_last(), p) + if es.last().1.contains(p) {
            seq![es.last().0]
        } else {
            Seq::<Seq<char>>::empty()
        }
    }
}

/// Strict lexicographic order on character sequences (the order of `str`).
pub open spec fn str_lt(a: Seq<char>, b: Seq<char>) -> bool
    decreases a.len(),
{
    if a.len() == 0 {
        b.len() > 0
    } else if b.len() == 0 {
        false
    } else if a[0] != b[0] {
        a[0] < b[0]
    } else {
        str_lt(a.drop_first(), b.drop_first())
    }
}

/// Strictly increasing.
pub open spec fn sorted_strict(s: Seq<Seq<char>>) -> bool {
    forall|i: int, j: int| 0 <= i < j < s.len() ==> str_lt(s[i], s[j])
}

/// A conflict as values: the pattern and the ids claiming it.
pub type ConflictView = (KeyPattern, Seq<Seq<char>>);

/// `c` reports pattern `c.0` as claimed by more than one id, listing those
/// ids in increasing order.
pub open spec fn is_conflict_of(es: Entries, c: ConflictView) -> bool {
    &&& claimants(es, c.0).len() > 1
    &&& sorted_strict(c.1)
    &&& forall|x: Seq<char>| #[trigger] c.1.contains(x) <==> claimants(es, c.0).contains(x)
}

/// `cs` lists each pattern claimed by more than one id exactly once.
pub open spec fn conflicts_of(es: Entries, cs: Seq<ConflictView>) -> bool {
    &&& forall|i: int| 0 <= i < cs.len() ==> is_conflict_of(es, #[trigger] cs[i])
    &&& forall|i: int, j: int| 0 <= i < j < cs.len() ==> cs[i].0 != cs[j].0
    &&& forall|p: KeyPattern|
        #![trigger claimants(es, p)]
        claimants(es, p).len() > 1 ==> exists|i: int| 0 <= i < cs.len() && cs[i].0 == p
}

proof fn lemma_str_lt_trans(a: Seq<char>, b: Seq<char>, c: Seq<char>)
    requires
        str_lt(a, b),
        str_lt(b, c),
    ensures
        str_lt(a, c),
    decreases a.len(),
{
    if a.len() > 0 && b.len() > 0 && c.len() > 0 && a[0] == b[0] && b[0] == c[0] {
        lemma_str_lt_trans(a.drop_first(), b.drop_first(), c.drop_first());
    }
}

proof fn lemma_str_lt_total(a: Seq<char>, b: Seq<char>)
    requires
        a != b,
    ensures
        str_lt(a, b) || str_lt(b, a),
    decreases a.len(),
{
    if a.len() > 0 && b.len() > 0 && a[0] == b[0] {
        if a.drop_first() == b.drop_first() {
            assert(a.drop_first().len() == b.drop_first().len());
            assert(a.len() == b.len());
            assert forall|i: int| 0 <= i < a.len() implies a[i] == b[i] by {
                if i > 0 {
                    assert(a[i] == a.drop_first()[i - 1]);
                    assert(b[i] == b.drop_first()[i - 1]);
                }
            }
            assert(a =~= b);
        } else {
            lemma_str_lt_total(a.drop_first(), b.drop_first());
        }
    } else if a.len() > 0 && b.len() > 0 {
        assert(a[0] < b[0] || b[0] < a[0]);
    } else if a.len() == 0 {
        assert(b.len() > 0) by {
            if b.len() == 0 {
                assert(a =~= b);
            }
        }
    }
}

/// Values of stored entries.
pub open spec fn entries_view(v: Seq<(String, Vec<KeyPattern>)>) -> Entries {
    v.map_values(|e: (String, Vec<KeyPattern>)| (e.0@, e.1@))
}

proof fn lemma_index_of(es: Entries, id: Seq<char>)
    ensures
        match index_of(es, id) {
            Some(i) => 0 <= i < es.len() && es[i].0 == id && forall|j: int| 0 <= j < i ==> es[j].0 != id,
            None => forall|j: int| 0 <= j < es.len() ==> es[j].0 != id,
        },
    decreases es.len(),
{
    if es.len() > 0 {
        lemma_index_of(es.drop_first(), id);
        assert forall|j: int| 0 < j < es.len() implies es[j] == es.drop_first()[j - 1] by {}
    }
}

/// Whether `a` comes before `b` in `str` order.
pub fn str_less(a: &str, b: &str) -> (r: bool)
    ensures
        r == str_lt(a@, b@),
{
    let x = chars_of(a);
    let y = chars_of(b);
    let mut i: usize = 0;
    assert(x@.skip(0) =~= x@);
    assert(y@.skip(0) =~= y@);
    while i < x.len() && i < y.len()
        invariant
            x@ == a@,
            y@ == b@,
            i <= x@.len(),
            i <= y@.len(),
            str_lt(a@, b@) == str_lt(x@.skip(i as int), y@.skip(i as int)),
        decreases x@.len() - i,
    {
        assert(x@.skip(i as int)[0] == x@[i as int]);
        assert(y@.skip(i as int)[0] == y@[i as int]);
        if x[i] != y[i] {
            return x[i] < y[i];
        }
        assert(x@.skip(i as int).drop_first() =~= x@.skip(i + 1));
        assert(y@.skip(i as int).drop_first() =~= y@.skip(i + 1));
        i = i + 1;
    }
    x.len() - i == 0 && y.len() - i > 0
}

/// Where `id` stands among stored entries.
fn find_entry(es: &Vec<(String, Vec<KeyPattern>)>, id: &str) -> (r: Option<usize>)
    ensures
        match index_of(entries_view(es@), id@) {
            Some(i) => r == Some(i as usize),
            None => r.is_none(),
        },
{
    let ghost ev = entries_view(es@);
    proof {
        lemma_index_of(ev, id@);
    }
    let mut i: usize = 0;
    while i < es.len()
        invariant
            ev == entries_view(es@),
            i <= es@.len(),
            forall|j: int| 0 <= j < i ==> ev[j].0 != id@,
            match index_of(ev, id@) {
                Some(k) => 0 <= k < ev.len() && ev[k].0 == id@ && forall|j: int|
                    0 <= j < k ==> ev[j].0 != id@,
                None => forall|j: int| 0 <= j < ev.len() ==> ev[j].0 != id@,
            },
        decreases es@.len() - i,
    {
        assert(ev[i as int].0 == es@[i as int].0@);
        if crate::text::same_text(es[i].0.as_str(), id) {
            return Some(i);
        }
        i = i + 1;
    }
    proof {
        if let Some(k) = index_of(ev, id@) {
            assert(ev[k].0 == id@);
        }
    }
    None
}

/// A copy of a list of patterns.
fn copy_patterns(v: &Vec<KeyPattern>) -> (c: Vec<KeyPattern>)
    ensures
        c@ == v@,
{
    let mut c: Vec<KeyPattern> = Vec::new();
    let mut i: usize = 0;
    while i < v.len()
        invariant
            i <= v@.len(),
            c@ == v@.take(i as int),
        decreases v@.len() - i,
    {
        c.push(v[i]);
        i = i + 1;
        assert(c@ =~= v@.take(i as int));
    }
    assert(v@.take(v@.len() as int) =~= v@);
    c
}

/// Binds `id` to `pats` (see [`set_entry`]).
fn set_entry_exec(es: &mut Vec<(String, Vec<KeyPattern>)>, id: String, pats: Vec<KeyPattern>)
    ensures
        entries_view(final(es)@) == set_entry(entries_view(old(es)@), id@, pats@),
{
    let ghost e0 = entries_view(es@);
    let ghost iv = id@;
    let ghost pv = pats@;
    proof {
        lemma_index_of(e0, id@);
    }
    assert(e0.len() == es@.len());
    let n = es.len();
    assert(e0.len() == n);
    let key: &str = id.as_str();
    assert(key@ == iv);
    let found = find_entry(&*es, key);
    assert(match index_of(e0, iv) {
        Some(k) => found == Some(k as usize),
        None => found.is_none(),
    });
    match found {
        Some(i) => {
            let ghost k = index_of(e0, iv).unwrap();
            assert(0 <= k < es@.len());
            assert(i as int == k);
            assert(index_of(e0, iv) == Some(i as int));
            es.set(i, (id, pats));
            assert(entries_view(es@) =~= e0.update(i as int, (iv, pv)));
            assert(entries_view(es@) == set_entry(e0, iv, pv));
        },
        None => {
            assert(index_of(e0, iv).is_none());
            es.push((id, pats));
            assert(entries_view(es@) =~= e0.push((iv, pv)));
            assert(entries_view(es@) == set_entry(e0, iv, pv));
        },
    }
}

/// The default entries.
fn default_entries() -> (es: Vec<(String, Vec<KeyPattern>)>)
    ensures
        entries_view(es@) == default_table(),
{
    let bs = default_bindings();
    let mut es: Vec<(String, Vec<KeyPattern>)> = Vec::new();
    let mut i: usize = 0;
    while i < bs.len()
        invariant
            i <= bs@.len(),
            bs@.map_values(|b: KeyBinding| binding_view(b)) == default_table(),
            entries_view(es@) == default_table().take(i as int),
        decreases bs@.len() - i,
    {
        let ghost e0 = entries_view(es@);
        let id = String::from_str(bs[i].id);
        let pats = copy_patterns(&bs[i].default);
        assert(bs@.map_values(|b: KeyBinding| binding_view(b))[i as int] == binding_view(bs@[i as int]));
        assert((id@, pats@) == default_table()[i as int]);
        es.push((id, pats));
        assert(entries_view(es@) =~= e0.push(default_table()[i as int]));
        assert(entries_view(es@) =~= default_table().take(i + 1));
        i = i + 1;
    }
    assert(default_table().take(bs@.len() as int) =~= default_table());
    es
}

/// Whether `p` is among `v`.
fn has_pattern(v: &Vec<KeyPattern>, p: KeyPattern) -> (b: bool)
    ensures
        b == v@.contains(p),
{
    let mut i: usize = 0;
    while i < v.len()
        invariant
            i <= v@.len(),
            forall|k: int| 0 <= k < i ==> v@[k] != p,
        decreases v@.len() - i,
    {
        if v[i] == p {
            assert(v@[i as int] == p);
            return true;
        }
        i = i + 1;
    }
    false
}

/// The ids whose keys include `p` (see [`claimants`]).
fn claimants_exec(es: &Vec<(String, Vec<KeyPattern>)>, p: KeyPattern) -> (r: Vec<String>)
    ensures
        views(r@) == claimants(entries_view(es@), p),
{
    let ghost ev = entries_view(es@);
    let mut r: Vec<String> = Vec::new();
    let mut i: usize = 0;
    assert(ev.take(0) =~= Seq::<(Seq<char>, Seq<KeyPattern>)>::empty());
    assert(views(r@) =~= Seq::<Seq<char>>::empty());
    while i < es.len()
        invariant
            ev == entries_view(es@),
            i <= es@.len(),
            views(r@) == claimants(ev.take(i as int), p),
        decreases es@.len() - i,
    {
        assert(ev.take(i + 1).drop_last() =~= ev.take(i as int));
        assert(ev.take(i + 1).last() == (es@[i as int].0@, es@[i as int].1@));
        let ghost r0 = r@;
        if has_pattern(&es[i].1, p) {
            r.push(es[i].0.clone());
            assert(views(r@) =~= views(r0) + seq![es@[i as int].0@]);
        } else {
            assert(views(r@) =~= views(r0) + Seq::<Seq<char>>::empty());
        }
        i = i + 1;
    }
    assert(ev.take(es@.len() as int) =~= ev);
    r
}

/// `x` added to a strictly increasing list, keeping it so (nothing changes
/// when `x` is already there).
fn sorted_insert(v: &mut Vec<String>, x: String)
    requires
        sorted_strict(views(old(v)@)),
    ensures
        sorted_strict(views(final(v)@)),
        forall|y: Seq<char>| #[trigger] views(final(v)@).contains(y) <==> (views(old(v)@).contains(y) || y == x@),
{
    let ghost w = views(v@);
    let mut i: usize = 0;
    while i < v.len()
        invariant
            w == views(v@),
            v@ == old(v)@,
            sorted_strict(w),
            i <= w.len(),
            forall|k: int| 0 <= k < i ==> str_lt(#[trigger] w[k], x@),
        ensures
            w == views(v@),
            v@ == old(v)@,
            i <= w.len(),
            forall|k: int| 0 <= k < i ==> str_lt(#[trigger] w[k], x@),
            i < w.len() ==> str_lt(x@, w[i as int]),
        decreases w.len() - i,
    {
        assert(w[i as int] == v@[i as int]@);
        if crate::text::same_text(v[i].as_str(), x.as_str()) {
            assert(w.contains(x@));
            return ;
        }
        if str_less(x.as_str(), v[i].as_str()) {
            break;
        }
        proof {
            lemma_str_lt_total(w[i as int], x@);
        }
        i = i + 1;
    }
    let ghost xv = x@;
    v.insert(i, x);
    proof {
        let nw = views(v@);
        assert(nw =~= w.insert(i as int, xv));
        assert forall|a: int, b: int| 0 <= a < b < nw.len() implies str_lt(nw[a], nw[b]) by {
            if b < i {
            } else if a < i && b == i {
            } else if a < i {
                assert(str_lt(w[a], xv));
                if i < w.len() {
                    assert(str_lt(xv, w[i as int]));
                    lemma_str_lt_trans(w[a], xv, w[i as int]);
                    if b - 1 > i {
                        lemma_str_lt_trans(w[a], w[i as int], w[b - 1]);
                    }
                }
            } else if a == i {
                assert(i < w.len());
                assert(str_lt(xv, w[i as int]));
                if b - 1 > i {
                    lemma_str_lt_trans(xv, w[i as int], w[b - 1]);
                }
            } else {
            }
        }
        assert forall|y: Seq<char>| #[trigger] nw.contains(y) <==> (w.contains(y) || y == xv) by {
            if nw.contains(y) {
                let k = choose|k: int| 0 <= k < nw.len() && nw[k] == y;
                if k < i {
                    assert(w[k] == y);
                } else if k > i {
                    assert(w[k - 1] == y);
                }
            }
            if w.contains(y) {
                let k = choose|k: int| 0 <= k < w.len() && w[k] == y;
                if k < i {
                    assert(nw[k] == y);
                } else {
                    assert(nw[k + 1] == y);
                }
            }
            if y == xv {
                assert(nw[i as int] == y);
            }
        }
    }
}

/// A key claimed by more than one binding id.
#[derive(Clone, Debug, PartialEq, Eq)]
pub struct Conflict {
    pub pattern: KeyPattern,
    pub ids: Vec<String>,
}

/// Values of a list of conflicts.
pub open spec fn conflict_views(cs: Seq<Conflict>) -> Seq<ConflictView> {
    cs.map_values(|c: Conflict| (c.pattern, views(c.ids@)))
}

/// The ids in increasing order, each once.
fn sorted_ids(ids: &Vec<String>) -> (r: Vec<String>)
    ensures
        sorted_strict(views(r@)),
        forall|y: Seq<char>| #[trigger] views(r@).contains(y) <==> views(ids@).contains(y),
{
    let ghost iv = views(ids@);
    let mut r: Vec<String> = Vec::new();
    let mut i: usize = 0;
    while i < ids.len()
        invariant
            iv == views(ids@),
            i <= ids@.len(),
            sorted_strict(views(r@)),
            forall|y: Seq<char>| #[trigger] views(r@).contains(y) <==> iv.take(i as int).contains(y),
        decreases ids@.len() - i,
    {
        let ghost r0 = views(r@);
        let x = ids[i].clone();
        assert(x@ == iv[i as int]);
        sorted_insert(&mut r, x);
        proof {
            assert(iv.take(i + 1) =~= iv.take(i as int).push(iv[i as int]));
            assert forall|y: Seq<char>| #[trigger] views(r@).contains(y) <==> iv.take(i + 1).contains(y) by {
                let t1 = iv.take(i + 1);
                let t0 = iv.take(i as int);
                assert(views(r@).contains(y) <==> (r0.contains(y) || y == iv[i as int]));
                assert(r0.contains(y) <==> t0.contains(y));
                if t1.contains(y) {
                    let k = choose|k: int| 0 <= k < t1.len() && #[trigger] t1[k] == y;
                    if k < i {
                        assert(t0[k] == y);
                    }
                }
                if t0.contains(y) {
                    let k = choose|k: int| 0 <= k < t0.len() && #[trigger] t0[k] == y;
                    assert(t1[k] == y);
                }
                if y == iv[i as int] {
                    assert(t1[i as int] == y);
                }
            }
        }
        i = i + 1;
    }
    assert(iv.take(ids@.len() as int) =~= iv);
    r
}

proof fn lemma_claimant_has_key(es: Entries, p: KeyPattern)
    requires
        claimants(es, p).len() > 0,
    ensures
        exists|j: int| 0 <= j < es.len() && (#[trigger] es[j]).1.contains(p),
    decreases es.len(),
{
    if es.last().1.contains(p) {
        assert(es[es.len() - 1].1.contains(p));
    } else {
        lemma_claimant_has_key(es.drop_last(), p);
        let j = choose|j: int| 0 <= j < es.drop_last().len() && (#[trigger] es.drop_last()[j]).1.contains(p);
        assert(es[j] == es.drop_last()[j]);
    }
}

proof fn lemma_push_keeps(s: Seq<KeyPattern>, p: KeyPattern)
    ensures
        forall|q: KeyPattern| #[trigger] s.push(p).contains(q) <==> (s.contains(q) || q == p),
{
    assert forall|q: KeyPattern| #[trigger] s.push(p).contains(q) <==> (s.contains(q) || q == p) by {
        if s.contains(q) {
            let k = choose|k: int| 0 <= k < s.len() && s[k] == q;
            assert(s.push(p)[k] == q);
        }
        if q == p {
            assert(s.push(p)[s.len() as int] == q);
        }
        if s.push(p).contains(q) {
            let k = choose|k: int| 0 <= k < s.push(p).len() && s.push(p)[k] == q;
            if k < s.len() {
                assert(s[k] == q);
            }
        }
    }
}

/// The conflicts of the entries (see [`conflicts_of`]).
fn compute_conflicts(es: &Vec<(String, Vec<KeyPattern>)>) -> (r: Vec<Conflict>)
    ensures
        conflicts_of(entries_view(es@), conflict_views(r@)),
{
    let ghost ev = entries_view(es@);
    let mut seen: Vec<KeyPattern> = Vec::new();
    let mut out: Vec<Conflict> = Vec::new();
    let mut j: usize = 0;
    while j < es.len()
        invariant
            ev == entries_view(es@),
            j <= es@.len(),
            forall|i: int| 0 <= i < out@.len() ==> is_conflict_of(ev, #[trigger] conflict_views(out@)[i]),
            forall|a: int, b: int| 0 <= a < b < out@.len() ==> out@[a].pattern != out@[b].pattern,
            forall|i: int| 0 <= i < out@.len() ==> seen@.contains(#[trigger] out@[i].pattern),
            forall|p: KeyPattern|
                #[trigger] seen@.contains(p) && claimants(ev, p).len() > 1 ==> exists|i: int|
                    0 <= i < out@.len() && out@[i].pattern == p,
            forall|jj: int, kk: int|
                0 <= jj < j && 0 <= kk < ev[jj].1.len() ==> seen@.contains(#[trigger] ev[jj].1[kk]),
        decreases es@.len() - j,
    {
        let mut k: usize = 0;
        while k < es[j].1.len()
            invariant
                ev == entries_view(es@),
                j < es@.len(),
                k <= es@[j as int].1@.len(),
                ev[j as int].1 == es@[j as int].1@,
                forall|i: int| 0 <= i < out@.len() ==> is_conflict_of(ev, #[trigger] conflict_views(out@)[i]),
                forall|a: int, b: int| 0 <= a < b < out@.len() ==> out@[a].pattern != out@[b].pattern,
                forall|i: int| 0 <= i < out@.len() ==> seen@.contains(#[trigger] out@[i].pattern),
                forall|p: KeyPattern|
                    #[trigger] seen@.contains(p) && claimants(ev, p).len() > 1 ==> exists|i: int|
                        0 <= i < out@.len() && out@[i].pattern == p,
                forall|jj: int, kk: int|
                    0 <= jj < j && 0 <= kk < ev[jj].1.len() ==> seen@.contains(#[trigger] ev[jj].1[kk]),
                forall|kk: int| 0 <= kk < k ==> seen@.contains(#[trigger] ev[j as int].1[kk]),
            decreases es@[j as int].1@.len() - k,
        {
            let p = es[j].1[k];
            if !has_pattern(&seen, p) {
                let ghost s0 = seen@;
                let ghost o0 = out@;
                seen.push(p);
                proof {
                    lemma_push_keeps(s0, p);
                }
                let cl = claimants_exec(es, p);
                if cl.len() > 1 {
                    let ids = sorted_ids(&cl);
                    let c = Conflict { pattern: p, ids };
                    proof {
                        assert(is_conflict_of(ev, (c.pattern, views(c.ids@))));
                    }
                    out.push(c);
                    proof {
                        assert(conflict_views(out@) =~= conflict_views(o0).push((p, views(c.ids@))));
                        assert forall|i: int| 0 <= i < out@.len() implies seen@.contains(#[trigger] out@[i].pattern) by {
                            if i < o0.len() {
                                assert(out@[i] == o0[i]);
                            }
                        }
                        assert forall|q: KeyPattern|
                            #[trigger] seen@.contains(q) && claimants(ev, q).len() > 1 implies exists|i: int|
                                0 <= i < out@.len() && out@[i].pattern == q by {
                            if q == p {
                                assert(out@[o0.len() as int].pattern == q);
                            } else {
                                assert(s0.contains(q));
                                let i = choose|i: int| 0 <= i < o0.len() && o0[i].pattern == q;
                                assert(out@[i] == o0[i]);
                            }
                        }
                    }
                } else {
                    proof {
                        assert forall|q: KeyPattern|
                            #[trigger] seen@.contains(q) && claimants(ev, q).len() > 1 implies exists|i: int|
                                0 <= i < out@.len() && out@[i].pattern == q by {
                            if q != p {
                                assert(s0.contains(q));
                            }
                        }
                    }
                }
            }
            proof {
                assert(ev[j as int].1[k as int] == p);
            }
            k = k + 1;
        }
        j = j + 1;
    }
    proof {
        assert forall|p: KeyPattern|
            #![trigger claimants(ev, p)]
            claimants(ev, p).len() > 1 implies exists|i: int|
                0 <= i < conflict_views(out@).len() && conflict_views(out@)[i].0 == p by {
            lemma_claimant_has_key(ev, p);
            let jj = choose|jj: int| 0 <= jj < ev.len() && (#[trigger] ev[jj]).1.contains(p);
            let kk = choose|kk: int| 0 <= kk < ev[jj].1.len() && ev[jj].1[kk] == p;
            assert(seen@.contains(ev[jj].1[kk]));
            let i = choose|i: int| 0 <= i < out@.len() && out@[i].pattern == p;
            assert(conflict_views(out@)[i].0 == p);
        }
    }
    out
}

/// The keys the last override for `id` gives it, if any.
pub open spec fn last_override(ovs: Entries, id: Seq<char>) -> Option<Seq<KeyPattern>>
    decreases ovs.len(),
{
    if ovs.len() == 0 {
        None
    } else if ovs.last().0 == id {
        Some(ovs.last().1)
    } else {
        last_override(ovs.drop_last(), id)
    }
}

proof fn lemma_lookup_set(es: Entries, id: Seq<char>, pats: Seq<KeyPattern>, q: Seq<char>)
    ensures
        lookup(set_entry(es, id, pats), q) == (if q == id {
            Some(pats)
        } else {
            lookup(es, q)
        }),
        distinct_ids(es) ==> distinct_ids(set_entry(es, id, pats)),
{
    lemma_index_of(es, id);
    lemma_index_of(es, q);
    let ns = set_entry(es, id, pats);
    lemma_index_of(ns, q);
    match index_of(es, id) {
        Some(i) => {
            assert forall|j: int| 0 <= j < es.len() implies ns[j].0 == es[j].0 by {}
            if q == id {
                assert(ns[i].0 == q);
                assert(index_of(ns, q) == Some(i));
            } else {
                match index_of(es, q) {
                    Some(k) => {
                        assert(ns[k].0 == q);
                        assert(index_of(ns, q) == Some(k));
                    },
                    None => {},
                }
            }
        },
        None => {
            if q == id {
                assert(ns[es.len() as int].0 == q);
                assert(index_of(ns, q) == Some(es.len() as int));
            } else {
                match index_of(es, q) {
                    Some(k) => {
                        assert(ns[k] == es[k]);
                        assert(index_of(ns, q) == Some(k));
                    },
                    None => {
                        assert(ns[es.len() as int].0 != q);
                    },
                }
            }
            if distinct_ids(es) {
                assert forall|a: int, b: int| 0 <= a < b < ns.len() implies ns[a].0 != ns[b].0 by {
                    if b == es.len() {
                        assert(ns[a] == es[a]);
                    } else {
                        assert(ns[a] == es[a] && ns[b] == es[b]);
                    }
                }
            }
        },
    }
}

/// A user override replaces the keys of its id (the last override of an
/// id wins); ids without an override keep their defaults; no id is bound
/// twice.
pub proof fn law_override_replaces_default(ovs: Entries, id: Seq<char>)
    ensures
        lookup(resolved(ovs), id) == match last_override(ovs, id) {
            Some(p) => Some(p),
            None => lookup(default_table(), id),
        },
        distinct_ids(resolved(ovs)),
    decreases ovs.len(),
{
    if ovs.len() == 0 {
        reveal_strlit("tui.input.submit");
        reveal_strlit("app.clear");
        reveal_strlit("app.exit");
        reveal_strlit("app.force_redraw");
        reveal_strlit("tui.editor.cursorLeft");
        reveal_strlit("tui.editor.cursorRight");
        reveal_strlit("tui.editor.cursorLineStart");
        reveal_strlit("tui.editor.cursorLineEnd");
        reveal_strlit("tui.editor.deleteCharBackward");
        let d = default_table();
        assert forall|a: int, b: int| 0 <= a < b < d.len() implies d[a].0 != d[b].0 by {
            assert(d[a].0[0] != d[b].0[0] || d[a].0.len() != d[b].0.len() || d[a].0[5] != d[b].0[5]
                || d[a].0[12] != d[b].0[12] || d[a].0[17] != d[b].0[17] || d[a].0[22] != d[b].0[22]);
        }
    } else {
        law_override_replaces_default(ovs.drop_last(), id);
        lemma_lookup_set(resolved(ovs.drop_last()), ovs.last().0, ovs.last().1, id);
    }
}

proof fn lemma_lookup_distinct(es: Entries, k: int)
    requires
        distinct_ids(es),
        0 <= k < es.len(),
    ensures
        lookup(es, es[k].0) == Some(es[k].1),
{
    lemma_index_of(es, es[k].0);
    match index_of(es, es[k].0) {
        Some(i) => {
            if i != k {
                if i < k {
                    assert(es[i].0 != es[k].0);
                }
            }
        },
        None => {},
    }
}

/// With no override, each binding id has exactly its documented key: Enter
/// submits, Ctrl+C clears or aborts, Ctrl+D exits, Ctrl+L redraws, and the
/// arrows, Home, End and Backspace edit.
pub proof fn law_default_keys()
    ensures
        resolved(Seq::empty()) == default_table(),
        lookup(default_table(), "tui.input.submit"@) == Some(seq![KeyPattern { code: Key::Enter, modifiers: 0u8 }]),
        lookup(default_table(), "app.clear"@) == Some(seq![KeyPattern { code: Key::Char('c'), modifiers: 2u8 }]),
        lookup(default_table(), "app.exit"@) == Some(seq![KeyPattern { code: Key::Char('d'), modifiers: 2u8 }]),
        lookup(default_table(), "app.force_redraw"@) == Some(seq![KeyPattern { code: Key::Char('l'), modifiers: 2u8 }]),
        lookup(default_table(), "tui.editor.cursorLeft"@) == Some(seq![KeyPattern { code: Key::Left, modifiers: 0u8 }]),
        lookup(default_table(), "tui.editor.cursorRight"@) == Some(seq![KeyPattern { code: Key::Right, modifiers: 0u8 }]),
        lookup(default_table(), "tui.editor.cursorLineStart"@) == Some(seq![KeyPattern { code: Key::Home, modifiers: 0u8 }]),
        lookup(default_table(), "tui.editor.cursorLineEnd"@) == Some(seq![KeyPattern { code: Key::End, modifiers: 0u8 }]),
        lookup(default_table(), "tui.editor.deleteCharBackward"@) == Some(
            seq![KeyPattern { code: Key::Backspace, modifiers: 0u8 }],
        ),
{
    law_override_replaces_default(Seq::empty(), "app.exit"@);
    let d = default_table();
    assert(resolved(Seq::empty()) == d);
    assert(distinct_ids(d));
    lemma_lookup_distinct(d, 0);
    lemma_lookup_distinct(d, 1);
    lemma_lookup_distinct(d, 2);
    lemma_lookup_distinct(d, 3);
    lemma_lookup_distinct(d, 4);
    lemma_lookup_distinct(d, 5);
    lemma_lookup_distinct(d, 6);
    lemma_lookup_distinct(d, 7);
    lemma_lookup_distinct(d, 8);
}

/// The resolved key registry as values.
pub struct KeybindingsModel {
    /// Keys per id.
    pub entries: Entries,
    /// Keys claimed by more than one id.
    pub conflicts: Seq<ConflictView>,
}

/// Resolved keybindings: the defaults with the user's overrides, and the
/// conflicts they contain.
pub struct KeybindingsManager {
    keys_by_id: Vec<(String, Vec<KeyPattern>)>,
    conflicts: Vec<Conflict>,
}

impl View for KeybindingsManager {
    type V = KeybindingsModel;

    closed spec fn view(&self) -> KeybindingsModel {
        KeybindingsModel {
            entries: entries_view(self.keys_by_id@),
            conflicts: conflict_views(self.conflicts@),
        }
    }
}

impl KeybindingsManager {
    #[verifier::type_invariant]
    closed spec fn conflicts_listed(self) -> bool {
        conflicts_of(entries_view(self.keys_by_id@), conflict_views(self.conflicts@))
    }

    fn resolve(overrides: &Vec<(String, Vec<KeyPattern>)>) -> (m: Self)
        ensures
            m@.entries == resolved(entries_view(overrides@)),
    {
        let ghost ov = entries_view(overrides@);
        let mut es = default_entries();
        let mut i: usize = 0;
        assert(ov.take(0) =~= Seq::<(Seq<char>, Seq<KeyPattern>)>::empty());
        while i < overrides.len()
            invariant
                ov == entries_view(overrides@),
                i <= overrides@.len(),
                entries_view(es@) == apply_overrides(default_table(), ov.take(i as int)),
            decreases overrides@.len() - i,
        {
            let id = overrides[i].0.clone();
            let pats = copy_patterns(&overrides[i].1);
            assert(ov.take(i + 1).drop_last() =~= ov.take(i as int));
            assert(ov.take(i + 1).last() == (id@, pats@));
            set_entry_exec(&mut es, id, pats);
            i = i + 1;
        }
        assert(ov.take(overrides@.len() as int) =~= ov);
        let conflicts = compute_conflicts(&es);
        KeybindingsManager { keys_by_id: es, conflicts }
    }

    /// Applies user overrides (each replaces the keys of its id; the last one
    /// for an id wins) over the defaults, and recomputes the conflicts.
    pub fn rebuild(&mut self, overrides: Vec<(String, Vec<KeyPattern>)>)
        ensures
            final(self)@.entries == resolved(entries_view(overrides@)),
            conflicts_of(final(self)@.entries, final(self)@.conflicts),
    {
        let m = Self::resolve(&overrides);
        proof {
            use_type_invariant(&m);
        }
        *self = m;
    }

    /// Whether `key` is one of the keys of `id`; an unknown id matches no key.
    pub fn matches(&self, key: KeyPattern, id: &str) -> (b: bool)
        ensures
            b == (lookup(self@.entries, id@) matches Some(ps) && ps.contains(key)),
    {
        proof {
            lemma_index_of(entries_view(self.keys_by_id@), id@);
        }
        let n = self.keys_by_id.len();
        assert(entries_view(self.keys_by_id@).len() == n);
        match find_entry(&self.keys_by_id, id) {
            Some(i) => has_pattern(&self.keys_by_id[i].1, key),
            None => false,
        }
    }

    /// The keys of `id` (none for an unknown id).
    pub fn get_keys(&self, id: &str) -> (v: Vec<KeyPattern>)
        ensures
            v@ == match lookup(self@.entries, id@) {
                Some(ps) => ps,
                None => Seq::<KeyPattern>::empty(),
            },
    {
        proof {
            lemma_index_of(entries_view(self.keys_by_id@), id@);
        }
        let n = self.keys_by_id.len();
        assert(entries_view(self.keys_by_id@).len() == n);
        match find_entry(&self.keys_by_id, id) {
            Some(i) => copy_patterns(&self.keys_by_id[i].1),
            None => Vec::new(),
        }
    }

    /// The conflicts of the current configuration (empty when there are
    /// none): each key claimed by more than one id, once, with those ids in
    /// increasing order.
    pub fn get_conflicts(&self) -> (v: Vec<Conflict>)
        ensures
            conflict_views(v@) == self@.conflicts,
            conflicts_of(self@.entries, self@.conflicts),
    {
        proof {
            use_type_invariant(self);
        }
        let mut v: Vec<Conflict> = Vec::new();
        let mut i: usize = 0;
        while i < self.conflicts.len()
            invariant
                i <= self.conflicts@.len(),
                conflict_views(v@) == conflict_views(self.conflicts@).take(i as int),
            decreases self.conflicts@.len() - i,
        {
            let c = Conflict {
                pattern: self.conflicts[i].pattern,
                ids: copy_ids(&self.conflicts[i].ids),
            };
            let ghost v0 = v@;
            assert((c.pattern, views(c.ids@)) == conflict_views(self.conflicts@)[i as int]);
            v.push(c);
            assert(conflict_views(v@) =~= conflict_views(v0).push(conflict_views(self.conflicts@)[i as int]));
            assert(conflict_views(v@) =~= conflict_views(self.conflicts@).take(i + 1));
            i = i + 1;
        }
        assert(conflict_views(self.conflicts@).take(self.conflicts@.len() as int) =~= conflict_views(
            self.conflicts@,
        ));
        v
    }

    /// All resolved bindings: each id with its keys.
    pub fn get_resolved(&self) -> (v: Vec<(String, Vec<KeyPattern>)>)
        ensures
            entries_view(v@) == self@.entries,
    {
        let mut v: Vec<(String, Vec<KeyPattern>)> = Vec::new();
        let mut i: usize = 0;
        while i < self.keys_by_id.len()
            invariant
                i <= self.keys_by_id@.len(),
                entries_view(v@) == entries_view(self.keys_by_id@).take(i as int),
            decreases self.keys_by_id@.len() - i,
        {
            let e = (self.keys_by_id[i].0.clone(), copy_patterns(&self.keys_by_id[i].1));
            let ghost v0 = v@;
            assert((e.0@, e.1@) == entries_view(self.keys_by_id@)[i as int]);
            v.push(e);
            assert(entries_view(v@) =~= entries_view(v0).push(entries_view(self.keys_by_id@)[i as int]));
            assert(entries_view(v@) =~= entries_view(self.keys_by_id@).take(i + 1));
            i = i + 1;
        }
        assert(entries_view(self.keys_by_id@).take(self.keys_by_id@.len() as int) =~= entries_view(
            self.keys_by_id@,
        ));
        v
    }
}

/// A copy of a list of ids.
fn copy_ids(v: &Vec<String>) -> (c: Vec<String>)
    ensures
        views(c@) == views(v@),
{
    let mut c: Vec<String> = Vec::new();
    let mut i: usize = 0;
    while i < v.len()
        invariant
            i <= v@.len(),
            views(c@) == views(v@).take(i as int),
        decreases v@.len() - i,
    {
        let ghost c0 = c@;
        let x = v[i].clone();
        c.push(x);
        assert(views(c@) =~= views(c0).push(v@[i as int]@));
        assert(views(c@) =~= views(v@).take(i + 1));
        i = i + 1;
    }
    assert(views(v@).take(v@.len() as int) =~= views(v@));
    c
}

impl Default for KeybindingsManager {
    /// The defaults, with no override (and no conflict).
    fn default() -> (m: Self)
        ensures
            m@.entries == default_table(),
            conflicts_of(m@.entries, m@.conflicts),
    {
        let m = KeybindingsManager::resolve(&Vec::new());
        proof {
            use_type_invariant(&m);
            assert(entries_view(Seq::<(String, Vec<KeyPattern>)>::empty()) =~= Seq::<
                (Seq<char>, Seq<KeyPattern>),
            >::empty());
        }
        m
    }
}

} // verus!
