//! Laws of password entry over whole sequences of keystrokes: what the
//! typed text is, what timing and F1 cannot change, how often the hint
//! line appears, and what a masked screen gives away.
use vstd::prelude::*;

use crate::password::{DrawOp, EntryView, Key};

verus! {

/// The entry after handling `inputs` in order; each input is a key and
/// whether it came within the phantom window.
pub open spec fn run_keys(v: EntryView, inputs: Seq<(Key, bool)>) -> EntryView
    decreases inputs.len(),
{
    if inputs.len() == 0 {
        v
    } else {
        crate::password::step(run_keys(v, inputs.drop_last()), inputs.last().0, inputs.last().1).state
    }
}

/// Everything drawn while handling `inputs` in order.
pub open spec fn run_ops(v: EntryView, inputs: Seq<(Key, bool)>) -> Seq<DrawOp>
    decreases inputs.len(),
{
    if inputs.len() == 0 {
        Seq::empty()
    } else {
        run_ops(v, inputs.drop_last()) + crate::password::step(
            run_keys(v, inputs.drop_last()),
            inputs.last().0,
            inputs.last().1,
        ).ops
    }
}

/// The text that `inputs` make of `text`: a typed character is appended,
/// Backspace removes the last character, every other key leaves the text
/// alone.
pub open spec fn edit_text(text: Seq<char>, inputs: Seq<(Key, bool)>) -> Seq<char>
    decreases inputs.len(),
{
    if inputs.len() == 0 {
        text
    } else {
        let t = edit_text(text, inputs.drop_last());
        match inputs.last().0 {
            Key::Printable(c) => if (c as u32) == 0x08 {
                if t.len() > 0 {
                    t.drop_last()
                } else {
                    t
                }
            } else if crate::password::is_typed(c) {
                t.push(c)
            } else {
                t
            },
            _ => t,
        }
    }
}

pub open spec fn has_no_f2(inputs: Seq<(Key, bool)>) -> bool {
    forall|i: int| 0 <= i < inputs.len() ==> (#[trigger] inputs[i]).0 != Key::F2
}

/// The two input sequences hold the same keys, whatever their timing.
pub open spec fn same_keys(a: Seq<(Key, bool)>, b: Seq<(Key, bool)>) -> bool {
    a.len() == b.len() && forall|i: int| 0 <= i < a.len() ==> (#[trigger] a[i]).0 == b[i].0
}

/// The inputs other than F1.
pub open spec fn without_f1(inputs: Seq<(Key, bool)>) -> Seq<(Key, bool)> {
    inputs.filter(|p: (Key, bool)| p.0 != Key::F1)
}

/// The parts of the entry that do not concern the screen.
pub open spec fn same_contents(a: EntryView, b: EntryView) -> bool {
    &&& a.password == b.password
    &&& a.suspects == b.suspects
    &&& a.prev == b.prev
    &&& a.hinted == b.hinted
}

pub open spec fn prev_is_last(v: EntryView) -> bool {
    v.prev == crate::password::last_char(v.password)
}

/// Without F2, the password after `inputs` is the text they edit, whatever
/// was flagged on the way: a flagged character is never dropped on its own.
pub proof fn lemma_password_is_edited_text(v: EntryView, inputs: Seq<(Key, bool)>)
    requires
        has_no_f2(inputs),
    ensures
        run_keys(v, inputs).password == edit_text(v.password, inputs),
    decreases inputs.len(),
{
    if inputs.len() > 0 {
        let init = inputs.drop_last();
        assert(has_no_f2(init)) by {
            assert forall|i: int| 0 <= i < init.len() implies (#[trigger] init[i]).0 != Key::F2 by {
                assert(init[i] == inputs[i]);
            }
        }
        assert(inputs.last() == inputs[inputs.len() - 1]);
        lemma_password_is_edited_text(v, init);
    }
}

proof fn lemma_edit_text_ignores_timing(text: Seq<char>, a: Seq<(Key, bool)>, b: Seq<(Key, bool)>)
    requires
        same_keys(a, b),
    ensures
        edit_text(text, a) == edit_text(text, b),
    decreases a.len(),
{
    if a.len() > 0 {
        let (ia, ib) = (a.drop_last(), b.drop_last());
        assert(same_keys(ia, ib)) by {
            assert forall|i: int| 0 <= i < ia.len() implies (#[trigger] ia[i]).0 == ib[i].0 by {
                assert(ia[i] == a[i]);
                assert(ib[i] == b[i]);
            }
        }
        assert(a[a.len() - 1].0 == b[b.len() - 1].0);
        lemma_edit_text_ignores_timing(text, ia, ib);
    }
}

/// Without F2, two runs over the same keys with different timing (so with
/// different characters flagged) end with the same password.
pub proof fn lemma_timing_changes_no_text(v: EntryView, a: Seq<(Key, bool)>, b: Seq<(Key, bool)>)
    requires
        same_keys(a, b),
        has_no_f2(a),
    ensures
        run_keys(v, a).password == run_keys(v, b).password,
{
    assert(has_no_f2(b)) by {
        assert forall|i: int| 0 <= i < b.len() implies (#[trigger] b[i]).0 != Key::F2 by {
            assert(a[i].0 == b[i].0);
        }
    }
    lemma_password_is_edited_text(v, a);
    lemma_password_is_edited_text(v, b);
    lemma_edit_text_ignores_timing(v.password, a, b);
}

/// A keystroke's effect on the contents depends on the contents alone.
proof fn lemma_step_contents(a: EntryView, b: EntryView, key: Key, w: bool)
    requires
        same_contents(a, b),
    ensures
        same_contents(
            crate::password::step(a, key, w).state,
            crate::password::step(b, key, w).state,
        ),
        prev_is_last(a) ==> prev_is_last(crate::password::step(a, key, w).state),
{
}

proof fn lemma_run_keeps_prev_is_last(v: EntryView, inputs: Seq<(Key, bool)>)
    requires
        prev_is_last(v),
    ensures
        prev_is_last(run_keys(v, inputs)),
    decreases inputs.len(),
{
    if inputs.len() > 0 {
        lemma_run_keeps_prev_is_last(v, inputs.drop_last());
        lemma_step_contents(
            run_keys(v, inputs.drop_last()),
            run_keys(v, inputs.drop_last()),
            inputs.last().0,
            inputs.last().1,
        );
    }
}

/// F1 only changes how the password is drawn: with every F1 taken out of
/// the inputs, the password, its flags, the last character and the hint
/// state come out the same.
pub proof fn lemma_show_changes_no_contents(v: EntryView, inputs: Seq<(Key, bool)>)
    requires
        prev_is_last(v),
    ensures
        same_contents(run_keys(v, inputs), run_keys(v, without_f1(inputs))),
    decreases inputs.len(),
{
    reveal_with_fuel(Seq::<_>::filter, 1);
    if inputs.len() > 0 {
        let init = inputs.drop_last();
        let last = inputs.last();
        lemma_show_changes_no_contents(v, init);
        lemma_run_keeps_prev_is_last(v, init);
        let f = without_f1(init);
        if last.0 == Key::F1 {
            assert(without_f1(inputs) == f);
            lemma_step_contents(run_keys(v, init), run_keys(v, init), last.0, last.1);
        } else {
            assert(without_f1(inputs) == f.push(last));
            assert(f.push(last).drop_last() =~= f);
            lemma_step_contents(run_keys(v, init), run_keys(v, f), last.0, last.1);
        }
    }
}

/// Two runs whose inputs differ only by F1 presses inserted or removed
/// end with the same password, flags, last character and hint state.
pub proof fn lemma_f1_presses_change_no_contents(v: EntryView, a: Seq<(Key, bool)>, b: Seq<(Key, bool)>)
    requires
        prev_is_last(v),
        without_f1(a) == without_f1(b),
    ensures
        same_contents(run_keys(v, a), run_keys(v, b)),
{
    lemma_show_changes_no_contents(v, a);
    lemma_show_changes_no_contents(v, b);
}

/// How often the hint line is drawn in `ops`.
pub open spec fn hint_count(ops: Seq<DrawOp>) -> nat
    decreases ops.len(),
{
    if ops.len() == 0 {
        0
    } else {
        hint_count(ops.drop_last()) + if ops.last() == DrawOp::HintText {
            1nat
        } else {
            0nat
        }
    }
}

proof fn lemma_hint_count_concat(a: Seq<DrawOp>, b: Seq<DrawOp>)
    ensures
        hint_count(a + b) == hint_count(a) + hint_count(b),
    decreases b.len(),
{
    if b.len() > 0 {
        assert((a + b).drop_last() =~= a + b.drop_last());
        lemma_hint_count_concat(a, b.drop_last());
    }
}

proof fn lemma_no_hint_in_chars(password: Seq<char>, masked: bool, suspects: Seq<usize>)
    ensures
        hint_count(crate::password::chars_ops(password, masked, suspects)) == 0,
    decreases password.len(),
{
    if password.len() > 0 {
        let init = crate::password::chars_ops(password.drop_last(), masked, suspects);
        let tail = crate::password::char_ops(
            password.last(),
            !masked && suspects.contains((password.len() - 1) as usize),
            masked,
        );
        lemma_no_hint_in_chars(password.drop_last(), masked, suspects);
        lemma_hint_count_concat(init, tail);
        reveal_with_fuel(hint_count, 4);
    }
}

proof fn lemma_no_hint_in_constant(n: nat, op: DrawOp)
    requires
        op != DrawOp::HintText,
    ensures
        hint_count(Seq::new(n, |_i: int| op)) == 0,
    decreases n,
{
    if n > 0 {
        assert(Seq::new(n, |_i: int| op).drop_last() =~= Seq::new((n - 1) as nat, |_i: int| op));
        lemma_no_hint_in_constant((n - 1) as nat, op);
    }
}

proof fn lemma_no_hint_in_redraw(shown: nat, password: Seq<char>, masked: bool, suspects: Seq<usize>)
    ensures
        hint_count(crate::password::redraw_ops(shown, password, masked, suspects)) == 0,
{
    let b = Seq::new(shown, |_i: int| DrawOp::Unit(8));
    let s = Seq::new(shown, |_i: int| DrawOp::Unit(32));
    lemma_no_hint_in_constant(shown, DrawOp::Unit(8));
    lemma_no_hint_in_constant(shown, DrawOp::Unit(32));
    lemma_hint_count_concat(b, s);
    lemma_hint_count_concat(b + s, b);
    lemma_no_hint_in_chars(password, masked, suspects);
    lemma_hint_count_concat(
        crate::password::erase_ops(shown),
        crate::password::chars_ops(password, masked, suspects),
    );
}

/// One keystroke draws the hint line exactly when it sets `hinted`, and
/// nothing clears `hinted`.
proof fn lemma_step_hint(v: EntryView, key: Key, w: bool)
    ensures
        v.hinted ==> crate::password::step(v, key, w).state.hinted,
        hint_count(crate::password::step(v, key, w).ops) == if crate::password::step(
            v,
            key,
            w,
        ).state.hinted && !v.hinted {
            1nat
        } else {
            0nat
        },
{
    let r = crate::password::step(v, key, w);
    reveal_with_fuel(hint_count, 3);
    match key {
        Key::Printable(c) => {
            if crate::password::is_enter(c) {
            } else if (c as u32) == 0x08 {
                if v.password.len() > 0 {
                    let b = crate::password::backspace_step(v);
                    lemma_no_hint_in_redraw(v.shown, b.state.password, v.masked, b.state.suspects);
                }
            } else if (c as u32) == 0 {
            } else {
                let t = crate::password::type_step(v, c, w);
                let suspect = crate::password::flags(v, c, w);
                lemma_no_hint_in_redraw(v.shown, t.state.password, v.masked, t.state.suspects);
                lemma_no_hint_in_redraw(0, t.state.password, v.masked, t.state.suspects);
                if suspect && !v.hinted {
                    let nl = crate::password::newline_ops();
                    let mid = seq![
                        DrawOp::SetColor(crate::password::TextColor::Hint),
                        DrawOp::HintText,
                        DrawOp::SetColor(crate::password::TextColor::Normal),
                    ];
                    let head = nl + mid + nl + seq![DrawOp::PromptText];
                    let tail = crate::password::redraw_ops(0, t.state.password, v.masked, t.state.suspects);
                    assert(hint_count(nl) == 0);
                    assert(hint_count(mid) == 1) by {
                        reveal_with_fuel(hint_count, 4);
                    }
                    assert(hint_count(seq![DrawOp::PromptText]) == 0);
                    lemma_hint_count_concat(nl, mid);
                    lemma_hint_count_concat(nl + mid, nl);
                    lemma_hint_count_concat(nl + mid + nl, seq![DrawOp::PromptText]);
                    lemma_hint_count_concat(head, tail);
                }
            }
        },
        Key::F1 => {
            lemma_no_hint_in_redraw(v.shown, v.password, !v.masked, v.suspects);
        },
        Key::F2 => {
            if v.suspects.len() > 0 {
                let d = crate::password::drop_flagged_step(v);
                lemma_no_hint_in_redraw(v.shown, d.state.password, v.masked, d.state.suspects);
            }
        },
        _ => {},
    }
}

/// The hint line is drawn at most once: once in a run that sets `hinted`
/// (that is, flags a character while no hint had been shown), never
/// otherwise.
pub proof fn lemma_hint_at_most_once(v: EntryView, inputs: Seq<(Key, bool)>)
    ensures
        v.hinted ==> run_keys(v, inputs).hinted,
        hint_count(run_ops(v, inputs)) == if run_keys(v, inputs).hinted && !v.hinted {
            1nat
        } else {
            0nat
        },
    decreases inputs.len(),
{
    if inputs.len() > 0 {
        let init = inputs.drop_last();
        lemma_hint_at_most_once(v, init);
        lemma_step_hint(run_keys(v, init), inputs.last().0, inputs.last().1);
        lemma_hint_count_concat(
            run_ops(v, init),
            crate::password::step(run_keys(v, init), inputs.last().0, inputs.last().1).ops,
        );
    }
}

/// A keystroke sets `hinted` exactly when it flags a character while no
/// hint had been shown.
pub proof fn lemma_hinted_means_flagged(v: EntryView, key: Key, w: bool)
    ensures
        crate::password::step(v, key, w).state.hinted == (v.hinted || (key matches Key::Printable(
            c,
        ) && crate::password::is_typed(c) && crate::password::flags(v, c, w))),
{
}

/// Some input of the run flags its character.
pub open spec fn flags_some_char(v: EntryView, inputs: Seq<(Key, bool)>) -> bool
    decreases inputs.len(),
{
    inputs.len() > 0 && (flags_some_char(v, inputs.drop_last()) || (inputs.last().0 matches Key::Printable(
        c,
    ) && crate::password::is_typed(c) && crate::password::flags(
        run_keys(v, inputs.drop_last()),
        c,
        inputs.last().1,
    )))
}

/// A run ends with the hint shown exactly when it started with it shown or
/// flags some character; with `lemma_hint_at_most_once`, a run that starts
/// without the hint draws it once if it flags a character and never
/// otherwise.
pub proof fn lemma_hint_iff_flagged(v: EntryView, inputs: Seq<(Key, bool)>)
    ensures
        run_keys(v, inputs).hinted == (v.hinted || flags_some_char(v, inputs)),
    decreases inputs.len(),
{
    if inputs.len() > 0 {
        lemma_hint_iff_flagged(v, inputs.drop_last());
        lemma_hinted_means_flagged(run_keys(v, inputs.drop_last()), inputs.last().0, inputs.last().1);
    }
}

/// A masked redraw shows only the length of the password: two passwords of
/// the same length draw the same, whatever their characters and flags.
pub proof fn lemma_masked_redraw_shows_only_length(
    shown: nat,
    p1: Seq<char>,
    s1: Seq<usize>,
    p2: Seq<char>,
    s2: Seq<usize>,
)
    requires
        p1.len() == p2.len(),
    ensures
        crate::password::redraw_ops(shown, p1, true, s1) == crate::password::redraw_ops(
            shown,
            p2,
            true,
            s2,
        ),
{
    lemma_masked_chars_are_stars(p1, s1);
    lemma_masked_chars_are_stars(p2, s2);
}

proof fn lemma_masked_chars_are_stars(p: Seq<char>, s: Seq<usize>)
    ensures
        crate::password::chars_ops(p, true, s) == Seq::new(p.len(), |_i: int| DrawOp::Unit(42)),
    decreases p.len(),
{
    if p.len() > 0 {
        lemma_masked_chars_are_stars(p.drop_last(), s);
        assert(crate::password::chars_ops(p, true, s) =~= Seq::new(p.len(), |_i: int| DrawOp::Unit(42)));
    }
}

/// While masked, what a keystroke draws depends on the password only
/// through its length and its flags: two masked entries that agree on
/// everything but the password's characters, fed the same key with the
/// same flagging decision, draw the same.
pub proof fn lemma_masked_step_shows_only_shape(a: EntryView, b: EntryView, key: Key, w: bool)
    requires
        a.masked,
        b.masked,
        a.shown == b.shown,
        a.hinted == b.hinted,
        a.suspects == b.suspects,
        a.password.len() == b.password.len(),
        key != Key::F1,
        key matches Key::Printable(c) ==> crate::password::flags(a, c, w) == crate::password::flags(
            b,
            c,
            w,
        ),
    ensures
        crate::password::step(a, key, w).ops == crate::password::step(b, key, w).ops,
{
    let ra = crate::password::step(a, key, w);
    let rb = crate::password::step(b, key, w);
    assert(ra.state.password.len() == rb.state.password.len());
    assert(ra.state.suspects == rb.state.suspects);
    lemma_masked_redraw_shows_only_length(a.shown, ra.state.password, ra.state.suspects, rb.state.password, rb.state.suspects);
    lemma_masked_redraw_shows_only_length(0, ra.state.password, ra.state.suspects, rb.state.password, rb.state.suspects);
}

/// A run without F1 from a masked entry stays masked and draws none of the
/// password's characters: only backspaces, line ends, blanks and
/// asterisks, besides colours, the hint line and the prompt.
pub proof fn lemma_masked_run_reveals_nothing(v: EntryView, inputs: Seq<(Key, bool)>)
    requires
        v.masked,
        forall|i: int| 0 <= i < inputs.len() ==> (#[trigger] inputs[i]).0 != Key::F1,
    ensures
        run_keys(v, inputs).masked,
        crate::password::reveals_nothing(run_ops(v, inputs)),
    decreases inputs.len(),
{
    if inputs.len() > 0 {
        let init = inputs.drop_last();
        assert(inputs[inputs.len() - 1].0 != Key::F1);
        assert forall|i: int| 0 <= i < init.len() implies (#[trigger] init[i]).0 != Key::F1 by {
            assert(init[i] == inputs[i]);
        }
        lemma_masked_run_reveals_nothing(v, init);
        let u = run_keys(v, init);
        crate::password::lemma_masked_entry_reveals_nothing(u, inputs.last().0, inputs.last().1);
        let x = run_ops(v, init);
        let y = crate::password::step(u, inputs.last().0, inputs.last().1).ops;
        assert(run_ops(v, inputs) == x + y);
        assert forall|i: int| 0 <= i < (x + y).len() implies (#[trigger] (x + y)[i] matches DrawOp::Unit(
            c,
        ) ==> c == 8 || c == 10 || c == 13 || c == 32 || c == 42) by {
            if i < x.len() {
                assert((x + y)[i] == x[i]);
            } else {
                assert((x + y)[i] == y[i - x.len()]);
            }
        }
    }
}

} // verus!
