//! What the password area of the screen shows. The console is modelled as
//! far as the drawing of password entry needs: the cells after the prompt,
//! the cursor's place among them, and the current colour. The law: after
//! every keystroke the area shows one glyph per character of the password
//! (an asterisk while masked, else the character, red when flagged), then
//! blanks only.
use vstd::prelude::*;

use crate::password::{DrawOp, EntryView, Key, TextColor};

verus! {

/// The password area: the cells after the prompt (a code unit and its
/// colour each), the cursor's place among them, and the current colour.
pub struct Area {
    pub cells: Seq<(u16, TextColor)>,
    pub cursor: nat,
    pub color: TextColor,
}

/// What the console does with one operation. Backspace moves the cursor
/// back without erasing; NUL writes nothing; carriage return, line feed,
/// the hint line and the prompt leave a fresh, empty area behind them; any
/// other code unit is written at the cursor in the current colour.
pub open spec fn apply_op(a: Area, op: DrawOp) -> Area {
    match op {
        DrawOp::Unit(u) => if u == 8 {
            Area {
                cursor: if a.cursor > 0 {
                    (a.cursor - 1) as nat
                } else {
                    0
                },
                ..a
            }
        } else if u == 0 {
            a
        } else if u == 10 || u == 13 {
            Area { cells: Seq::empty(), cursor: 0, ..a }
        } else {
            Area {
                cells: if a.cursor < a.cells.len() {
                    a.cells.update(a.cursor as int, (u, a.color))
                } else {
                    a.cells.push((u, a.color))
                },
                cursor: a.cursor + 1,
                ..a
            }
        },
        DrawOp::SetColor(c) => Area { color: c, ..a },
        DrawOp::HintText => Area { cells: Seq::empty(), cursor: 0, ..a },
        DrawOp::PromptText => Area { cells: Seq::empty(), cursor: 0, ..a },
    }
}

pub open spec fn apply_ops(a: Area, ops: Seq<DrawOp>) -> Area
    decreases ops.len(),
{
    if ops.len() == 0 {
        a
    } else {
        apply_op(apply_ops(a, ops.drop_last()), ops.last())
    }
}

/// The cell that shows the password's character `i`.
pub open spec fn cell_of(v: EntryView, i: int) -> (u16, TextColor) {
    (
        crate::password::glyph(v.password[i], v.masked),
        if !v.masked && v.suspects.contains(i as usize) {
            TextColor::Flagged
        } else {
            TextColor::Normal
        },
    )
}

/// The area shows the entry: one cell per character of the password, then
/// blanks only, the cursor right after the password, the colour normal.
pub open spec fn shows(v: EntryView, a: Area) -> bool {
    &&& a.cursor == v.password.len()
    &&& a.cursor <= a.cells.len()
    &&& a.color == TextColor::Normal
    &&& forall|i: int| 0 <= i < v.password.len() ==> #[trigger] a.cells[i] == cell_of(v, i)
    &&& forall|i: int| v.password.len() <= i < a.cells.len() ==> (#[trigger] a.cells[i]).0 == 32
}

/// A character the console can deliver and that password entry keeps: a
/// UCS-2 character other than Enter, Backspace and NUL.
pub open spec fn is_entry_char(c: char) -> bool {
    crate::password::is_typed(c) && (c as u32) < 0x10000
}

pub open spec fn all_entry_chars(p: Seq<char>) -> bool {
    forall|i: int| 0 <= i < p.len() ==> is_entry_char(#[trigger] p[i])
}

proof fn lemma_apply_concat(a: Area, x: Seq<DrawOp>, y: Seq<DrawOp>)
    ensures
        apply_ops(a, x + y) == apply_ops(apply_ops(a, x), y),
    decreases y.len(),
{
    if y.len() == 0 {
        assert(x + y =~= x);
    } else {
        assert((x + y).drop_last() =~= x + y.drop_last());
        assert((x + y).last() == y.last());
        lemma_apply_concat(a, x, y.drop_last());
    }
}

proof fn lemma_apply_push(a: Area, s: Seq<DrawOp>, op: DrawOp)
    ensures
        apply_ops(a, s.push(op)) == apply_op(apply_ops(a, s), op),
{
    assert(s.push(op).drop_last() =~= s);
}

proof fn lemma_backspaces(a: Area, n: nat)
    requires
        a.cursor >= n,
    ensures
        apply_ops(a, Seq::new(n, |_i: int| DrawOp::Unit(8))) == (Area { cursor: (a.cursor - n) as nat, ..a }),
    decreases n,
{
    if n > 0 {
        assert(Seq::new(n, |_i: int| DrawOp::Unit(8)).drop_last() =~= Seq::new(
            (n - 1) as nat,
            |_i: int| DrawOp::Unit(8),
        ));
        lemma_backspaces(a, (n - 1) as nat);
    }
}

proof fn lemma_blanks(a: Area, n: nat)
    requires
        a.cursor == 0,
        n <= a.cells.len(),
    ensures
        ({
            let r = apply_ops(a, Seq::new(n, |_i: int| DrawOp::Unit(32)));
            &&& r.cursor == n
            &&& r.color == a.color
            &&& r.cells.len() == a.cells.len()
            &&& forall|i: int| 0 <= i < n ==> #[trigger] r.cells[i] == (32u16, a.color)
            &&& forall|i: int| n <= i < a.cells.len() ==> #[trigger] r.cells[i] == a.cells[i]
        }),
    decreases n,
{
    if n > 0 {
        assert(Seq::new(n, |_i: int| DrawOp::Unit(32)).drop_last() =~= Seq::new(
            (n - 1) as nat,
            |_i: int| DrawOp::Unit(32),
        ));
        lemma_blanks(a, (n - 1) as nat);
    }
}

proof fn lemma_erase(a: Area, n: nat)
    requires
        a.cursor == n,
        n <= a.cells.len(),
    ensures
        ({
            let r = apply_ops(a, crate::password::erase_ops(n));
            &&& r.cursor == 0
            &&& r.color == a.color
            &&& r.cells.len() == a.cells.len()
            &&& forall|i: int| 0 <= i < n ==> #[trigger] r.cells[i] == (32u16, a.color)
            &&& forall|i: int| n <= i < a.cells.len() ==> #[trigger] r.cells[i] == a.cells[i]
        }),
{
    let b = Seq::new(n, |_i: int| DrawOp::Unit(8));
    let s = Seq::new(n, |_i: int| DrawOp::Unit(32));
    lemma_apply_concat(a, b + s, b);
    lemma_apply_concat(a, b, s);
    lemma_backspaces(a, n);
    let a1 = apply_ops(a, b);
    lemma_blanks(a1, n);
    let a2 = apply_ops(a1, s);
    lemma_backspaces(a2, n);
}

proof fn lemma_chars(a: Area, p: Seq<char>, masked: bool, s: Seq<usize>)
    requires
        a.cursor == 0,
        a.color == TextColor::Normal,
        all_entry_chars(p),
    ensures
        ({
            let r = apply_ops(a, crate::password::chars_ops(p, masked, s));
            let v = EntryView { password: p, suspects: s, prev: None, hinted: false, masked, shown: 0 };
            &&& r.cursor == p.len()
            &&& r.color == TextColor::Normal
            &&& r.cells.len() == if a.cells.len() < p.len() {
                p.len()
            } else {
                a.cells.len()
            }
            &&& forall|i: int| 0 <= i < p.len() ==> #[trigger] r.cells[i] == cell_of(v, i)
            &&& forall|i: int| p.len() <= i < a.cells.len() ==> #[trigger] r.cells[i] == a.cells[i]
        }),
    decreases p.len(),
{
    if p.len() > 0 {
        let init = p.drop_last();
        assert(all_entry_chars(init)) by {
            assert forall|i: int| 0 <= i < init.len() implies is_entry_char(#[trigger] init[i]) by {
                assert(init[i] == p[i]);
            }
        }
        lemma_chars(a, init, masked, s);
        let k = (p.len() - 1) as int;
        let c = p.last();
        assert(is_entry_char(p[k]));
        let flagged = !masked && s.contains(k as usize);
        let mid = apply_ops(a, crate::password::chars_ops(init, masked, s));
        let tail = crate::password::char_ops(c, flagged, masked);
        lemma_apply_concat(a, crate::password::chars_ops(init, masked, s), tail);
        let g = crate::password::glyph(c, masked);
        assert(g != 0 && g != 8 && g != 10 && g != 13);
        reveal_with_fuel(apply_ops, 4);
        let r = apply_ops(mid, tail);
        let v0 = EntryView { password: init, suspects: s, prev: None, hinted: false, masked, shown: 0 };
        let v = EntryView { password: p, suspects: s, prev: None, hinted: false, masked, shown: 0 };
        assert forall|i: int| 0 <= i < p.len() implies #[trigger] r.cells[i] == cell_of(v, i) by {
            if i < k {
                assert(mid.cells[i] == cell_of(v0, i));
                assert(init[i] == p[i]);
            }
        }
    }
}

/// A redraw over an area that shows `shown` cells of password followed by
/// blanks leaves the area showing the new password.
proof fn lemma_redraw(a: Area, shown: nat, v: EntryView)
    requires
        a.cursor == shown,
        shown <= a.cells.len(),
        a.color == TextColor::Normal,
        forall|i: int| shown <= i < a.cells.len() ==> (#[trigger] a.cells[i]).0 == 32,
        all_entry_chars(v.password),
        v.shown == v.password.len(),
    ensures
        shows(v, apply_ops(a, crate::password::redraw_ops(shown, v.password, v.masked, v.suspects))),
{
    let e = crate::password::erase_ops(shown);
    let ch = crate::password::chars_ops(v.password, v.masked, v.suspects);
    lemma_apply_concat(a, e, ch);
    lemma_erase(a, shown);
    let a1 = apply_ops(a, e);
    lemma_chars(a1, v.password, v.masked, v.suspects);
    let r = apply_ops(a1, ch);
    let v0 = EntryView { prev: None, hinted: false, shown: 0, ..v };
    assert forall|i: int| 0 <= i < v.password.len() implies #[trigger] r.cells[i] == cell_of(v, i) by {
        assert(r.cells[i] == cell_of(v0, i));
    }
    assert forall|i: int| v.password.len() <= i < r.cells.len() implies (#[trigger] r.cells[i]).0 == 32 by {
        assert(r.cells[i] == a1.cells[i]);
        if i >= shown {
            assert(a1.cells[i] == a.cells[i]);
        }
    }
}

/// Before any keystroke the area right after the prompt is empty, and it
/// shows the new entry.
pub proof fn lemma_screen_starts_right(v: EntryView)
    requires
        v.password.len() == 0,
    ensures
        shows(v, Area { cells: Seq::empty(), cursor: 0, color: TextColor::Normal }),
{
}

proof fn lemma_entry_chars_kept(v: EntryView, key: Key, w: bool)
    requires
        v.wf(),
        all_entry_chars(v.password),
        key matches Key::Printable(c) ==> (c as u32) < 0x10000,
    ensures
        all_entry_chars(crate::password::step(v, key, w).state.password),
{
    let n = crate::password::step(v, key, w).state.password;
    if key == Key::F2 && v.suspects.len() > 0 {
        crate::password::lemma_drop_flagged_deletes_it(v, w);
        let idx = v.suspects.last() as int;
        assert forall|i: int| 0 <= i < n.len() implies is_entry_char(#[trigger] n[i]) by {
            if i < idx {
                assert(n[i] == v.password[i]);
            } else {
                assert(n[i] == v.password[i + 1]);
            }
        }
    } else {
        assert forall|i: int| 0 <= i < n.len() implies is_entry_char(#[trigger] n[i]) by {
            if i < v.password.len() {
                assert(n[i] == v.password[i]);
            }
        }
    }
}

proof fn lemma_screen_after_first_flag(v: EntryView, a: Area, c: char, w: bool)
    requires
        v.wf(),
        all_entry_chars(crate::password::step(v, Key::Printable(c), w).state.password),
        crate::password::is_typed(c),
        v.password.len() < usize::MAX,
        crate::password::flags(v, c, w),
        !v.hinted,
    ensures
        shows(
            crate::password::step(v, Key::Printable(c), w).state,
            apply_ops(a, crate::password::step(v, Key::Printable(c), w).ops),
        ),
{
    let r = crate::password::step(v, Key::Printable(c), w);
    crate::password::lemma_step_keeps_wf(v, Key::Printable(c), w);
    let nl = crate::password::newline_ops();
    let head = nl + seq![
        DrawOp::SetColor(TextColor::Hint),
        DrawOp::HintText,
        DrawOp::SetColor(TextColor::Normal),
    ] + nl + seq![DrawOp::PromptText];
    let tail = crate::password::redraw_ops(0, r.state.password, v.masked, r.state.suspects);
    assert(r.ops == head + tail);
    lemma_apply_concat(a, head, tail);
    let e = Seq::<DrawOp>::empty();
    let h1 = e.push(DrawOp::Unit(13));
    let h2 = h1.push(DrawOp::Unit(10));
    let h3 = h2.push(DrawOp::SetColor(TextColor::Hint));
    let h4 = h3.push(DrawOp::HintText);
    let h5 = h4.push(DrawOp::SetColor(TextColor::Normal));
    let h6 = h5.push(DrawOp::Unit(13));
    let h7 = h6.push(DrawOp::Unit(10));
    let h8 = h7.push(DrawOp::PromptText);
    assert(head =~= h8);
    lemma_apply_push(a, e, DrawOp::Unit(13));
    lemma_apply_push(a, h1, DrawOp::Unit(10));
    lemma_apply_push(a, h2, DrawOp::SetColor(TextColor::Hint));
    lemma_apply_push(a, h3, DrawOp::HintText);
    lemma_apply_push(a, h4, DrawOp::SetColor(TextColor::Normal));
    lemma_apply_push(a, h5, DrawOp::Unit(13));
    lemma_apply_push(a, h6, DrawOp::Unit(10));
    lemma_apply_push(a, h7, DrawOp::PromptText);
    let fresh = apply_ops(a, head);
    assert(fresh == Area { cells: Seq::empty(), cursor: 0, color: TextColor::Normal });
    lemma_redraw(fresh, 0, r.state);
}

proof fn lemma_screen_after_echo(v: EntryView, a: Area, c: char, w: bool)
    requires
        v.wf(),
        shows(v, a),
        is_entry_char(c),
        v.password.len() < usize::MAX,
        !crate::password::flags(v, c, w),
    ensures
        shows(
            crate::password::step(v, Key::Printable(c), w).state,
            apply_ops(a, crate::password::step(v, Key::Printable(c), w).ops),
        ),
{
    let r = crate::password::step(v, Key::Printable(c), w);
    let n = r.state.password;
    reveal_with_fuel(apply_ops, 2);
    let b = apply_ops(a, r.ops);
    let k = v.password.len() as int;
    assert forall|j: int| 0 <= j < v.suspects.len() implies #[trigger] v.suspects[j] != k by {}
    assert(!v.suspects.contains(k as usize));
    assert forall|i: int| 0 <= i < n.len() implies #[trigger] b.cells[i] == cell_of(r.state, i) by {
        if i < k {
            assert(a.cells[i] == cell_of(v, i));
            assert(n[i] == v.password[i]);
        }
    }
}

/// After every keystroke that does not end entry, the password area shows
/// the password: an asterisk per character while masked, else the
/// characters themselves with flagged ones in red, then blanks only.
pub proof fn lemma_screen_shows_password(v: EntryView, a: Area, key: Key, w: bool)
    requires
        v.wf(),
        all_entry_chars(v.password),
        shows(v, a),
        key matches Key::Printable(c) ==> (c as u32) < 0x10000,
        key matches Key::Printable(c) && crate::password::is_typed(c) ==> v.password.len()
            < usize::MAX,
        crate::password::step(v, key, w).flow == crate::password::Flow::Continue,
    ensures
        all_entry_chars(crate::password::step(v, key, w).state.password),
        shows(
            crate::password::step(v, key, w).state,
            apply_ops(a, crate::password::step(v, key, w).ops),
        ),
{
    let r = crate::password::step(v, key, w);
    crate::password::lemma_step_keeps_wf(v, key, w);
    lemma_entry_chars_kept(v, key, w);
    match key {
        Key::Printable(c) => {
            if (c as u32) == 0x08 {
                if v.password.len() > 0 {
                    lemma_redraw(a, v.shown, r.state);
                }
            } else if crate::password::is_typed(c) {
                let suspect = crate::password::flags(v, c, w);
                if suspect && !v.hinted {
                    lemma_screen_after_first_flag(v, a, c, w);
                } else if suspect {
                    lemma_redraw(a, v.shown, r.state);
                } else {
                    lemma_screen_after_echo(v, a, c, w);
                }
            }
        },
        Key::F1 => {
            lemma_redraw(a, v.shown, r.state);
        },
        Key::F2 => {
            if v.suspects.len() > 0 {
                lemma_redraw(a, v.shown, r.state);
            }
        },
        _ => {},
    }
}

/// A keystroke that neither ends entry nor carries a character outside
/// UCS-2.
pub open spec fn keeps_entering(key: Key) -> bool {
    match key {
        Key::Printable(c) => !crate::password::is_enter(c) && (c as u32) < 0x10000,
        Key::Escape => false,
        _ => true,
    }
}

/// Over a whole run of keystrokes that keep entry going, the password area
/// shows the password after every one of them.
pub proof fn lemma_screen_over_run(v: EntryView, a: Area, inputs: Seq<(Key, bool)>)
    requires
        v.wf(),
        all_entry_chars(v.password),
        shows(v, a),
        v.password.len() + inputs.len() <= usize::MAX,
        forall|i: int| 0 <= i < inputs.len() ==> keeps_entering((#[trigger] inputs[i]).0),
    ensures
        crate::keystrokes::run_keys(v, inputs).wf(),
        all_entry_chars(crate::keystrokes::run_keys(v, inputs).password),
        crate::keystrokes::run_keys(v, inputs).password.len() <= v.password.len() + inputs.len(),
        shows(crate::keystrokes::run_keys(v, inputs), apply_ops(a, crate::keystrokes::run_ops(v, inputs))),
    decreases inputs.len(),
{
    if inputs.len() > 0 {
        let init = inputs.drop_last();
        let (key, w) = inputs.last();
        assert(keeps_entering(inputs[inputs.len() - 1].0));
        assert forall|i: int| 0 <= i < init.len() implies keeps_entering((#[trigger] init[i]).0) by {
            assert(init[i] == inputs[i]);
        }
        lemma_screen_over_run(v, a, init);
        let u = crate::keystrokes::run_keys(v, init);
        let b = apply_ops(a, crate::keystrokes::run_ops(v, init));
        lemma_apply_concat(a, crate::keystrokes::run_ops(v, init), crate::password::step(u, key, w).ops);
        crate::password::lemma_step_keeps_wf(u, key, w);
        lemma_screen_shows_password(u, b, key, w);
    }
}

} // verus!
