//! Password entry at the console. Keystrokes come in one at a time; each
//! one edits the password and says what to draw. A character typed shortly
//! after its own shifted twin is kept but flagged as a possible Shift-release
//! phantom: F1 reveals the password with flagged characters in red, F2
//! deletes the last flagged one.
use vstd::prelude::*;

use crate::keymap::unshifted_twin;

verus! {

/// A keystroke, as the console reports it.
#[derive(Clone, Copy, Debug, PartialEq, Eq, Structural)]
pub enum Key {
    /// A key that produces a character (Enter, Backspace and NUL included).
    Printable(char),
    /// F1: toggles between asterisks and the typed password.
    F1,
    /// F2: deletes the last flagged character.
    F2,
    /// Escape: shuts the machine down.
    Escape,
    /// Any other special key; ignored.
    OtherSpecial,
}

#[derive(Clone, Copy, Debug, PartialEq, Eq, Structural)]
pub enum TextColor {
    /// Light gray on black, the console's ordinary colours.
    Normal,
    /// Yellow on black, for the hint line.
    Hint,
    /// Light red on black, for a flagged character.
    Flagged,
}

/// One thing to do on the console, in order.
#[derive(Clone, Copy, Debug, PartialEq, Eq, Structural)]
pub enum DrawOp {
    /// Write one UCS-2 code unit.
    Unit(u16),
    /// Switch the text colour.
    SetColor(TextColor),
    /// Write the hint line that explains flagged keystrokes.
    HintText,
    /// Write the prompt again.
    PromptText,
}

/// What follows a keystroke.
#[derive(Clone, Copy, Debug, PartialEq, Eq, Structural)]
pub enum Flow {
    /// Wait for the next keystroke.
    Continue,
    /// The password is complete: hand it back.
    Submit,
    /// Shut the machine down.
    Shutdown,
}

/// The result of one keystroke: what to draw, whether to restart the
/// inter-key timer, and what comes next.
pub struct Step {
    pub ops: Vec<DrawOp>,
    pub restart_timer: bool,
    pub flow: Flow,
}

/// The state of password entry.
pub struct PasswordEntry {
    password: Vec<char>,
    suspects: Vec<usize>,
    prev: Option<char>,
    hinted: bool,
    masked: bool,
    shown: usize,
}

/// The state of password entry as mathematical values.
pub struct EntryView {
    /// The characters typed so far.
    pub password: Seq<char>,
    /// Indices of flagged characters.
    pub suspects: Seq<usize>,
    /// The character typed last.
    pub prev: Option<char>,
    /// Whether the hint line has been shown.
    pub hinted: bool,
    /// Whether the password is drawn as asterisks.
    pub masked: bool,
    /// How many cells the password area takes on screen.
    pub shown: nat,
}

pub struct StepView {
    pub state: EntryView,
    pub ops: Seq<DrawOp>,
    pub restart_timer: bool,
    pub flow: Flow,
}

pub open spec fn last_char(s: Seq<char>) -> Option<char> {
    if s.len() == 0 {
        None
    } else {
        Some(s.last())
    }
}

impl EntryView {
    /// The state that every keystroke keeps: flagged indices are strictly
    /// increasing and point into the password, the last typed character is
    /// the password's last character, the screen shows one cell per
    /// character, and the password's length fits a `usize`.
    pub open spec fn wf(self) -> bool {
        &&& self.password.len() <= usize::MAX
        &&& forall|i: int, j: int|
            0 <= i < j < self.suspects.len() ==> self.suspects[i] < self.suspects[j]
        &&& forall|i: int| 0 <= i < self.suspects.len() ==> self.suspects[i] < self.password.len()
        &&& self.prev == last_char(self.password)
        &&& self.shown == self.password.len()
    }
}

/// The code unit drawn for `c`: an asterisk when masked, else `c` cut to
/// sixteen bits.
pub open spec fn glyph(c: char, masked: bool) -> u16 {
    if masked {
        42
    } else {
        ((c as u32) % 0x10000) as u16
    }
}

pub open spec fn newline_ops() -> Seq<DrawOp> {
    seq![DrawOp::Unit(13), DrawOp::Unit(10)]
}

/// Erasing `shown` cells: back over them, blank them, back again.
pub open spec fn erase_ops(shown: nat) -> Seq<DrawOp> {
    Seq::new(shown, |_i: int| DrawOp::Unit(8)) + Seq::new(shown, |_i: int| DrawOp::Unit(32))
        + Seq::new(shown, |_i: int| DrawOp::Unit(8))
}

pub open spec fn char_ops(c: char, flagged: bool, masked: bool) -> Seq<DrawOp> {
    if flagged {
        seq![
            DrawOp::SetColor(TextColor::Flagged),
            DrawOp::Unit(glyph(c, masked)),
            DrawOp::SetColor(TextColor::Normal),
        ]
    } else {
        seq![DrawOp::Unit(glyph(c, masked))]
    }
}

/// Drawing the password: one cell per character, flagged characters in red
/// when the password is revealed.
pub open spec fn chars_ops(password: Seq<char>, masked: bool, suspects: Seq<usize>) -> Seq<DrawOp>
    decreases password.len(),
{
    if password.len() == 0 {
        Seq::empty()
    } else {
        chars_ops(password.drop_last(), masked, suspects) + char_ops(
            password.last(),
            !masked && suspects.contains((password.len() - 1) as usize),
            masked,
        )
    }
}

/// Redrawing the password area that now takes `shown` cells.
pub open spec fn redraw_ops(shown: nat, password: Seq<char>, masked: bool, suspects: Seq<usize>) -> Seq<DrawOp> {
    erase_ops(shown) + chars_ops(password, masked, suspects)
}

/// Enter (carriage return or line feed).
pub open spec fn is_enter(c: char) -> bool {
    (c as u32) == 0x0d || (c as u32) == 0x0a
}

/// A printable key that adds a character: not Enter, Backspace or NUL.
pub open spec fn is_typed(c: char) -> bool {
    !is_enter(c) && (c as u32) != 0x08 && (c as u32) != 0
}

pub open spec fn unchanged(v: EntryView) -> StepView {
    StepView { state: v, ops: Seq::empty(), restart_timer: false, flow: Flow::Continue }
}

/// `v` with its password, flags and last character replaced, redrawn.
pub open spec fn redrawn(v: EntryView, password: Seq<char>, suspects: Seq<usize>, masked: bool) -> StepView {
    StepView {
        state: EntryView {
            password,
            suspects,
            prev: last_char(password),
            hinted: v.hinted,
            masked,
            shown: password.len(),
        },
        ops: redraw_ops(v.shown, password, masked, suspects),
        restart_timer: false,
        flow: Flow::Continue,
    }
}

/// `suspects` without the flags that point at index `i`.
pub open spec fn unflag(suspects: Seq<usize>, i: int) -> Seq<usize> {
    suspects.filter(|s: usize| s != i)
}

/// Backspace: drop the last character and its flag.
pub open spec fn backspace_step(v: EntryView) -> StepView {
    if v.password.len() == 0 {
        unchanged(v)
    } else {
        redrawn(v, v.password.drop_last(), unflag(v.suspects, v.password.len() - 1), v.masked)
    }
}

/// Whether typing `c` now flags it: it came within the window and is the
/// unshifted twin of the character typed before it.
pub open spec fn flags(v: EntryView, c: char, within_window: bool) -> bool {
    within_window && (v.prev matches Some(p) && crate::keymap::twin_of(p) == Some(c))
}

/// Typing a character: it is always kept; it is flagged when `flags` says
/// so. The first flag also shows the hint line and the prompt again.
pub open spec fn type_step(v: EntryView, c: char, within_window: bool) -> StepView {
    let suspect = flags(v, c, within_window);
    let password = v.password.push(c);
    let suspects = if suspect {
        v.suspects.push(v.password.len() as usize)
    } else {
        v.suspects
    };
    let state = EntryView {
        password,
        suspects,
        prev: Some(c),
        hinted: v.hinted || suspect,
        masked: v.masked,
        shown: if suspect {
            password.len()
        } else {
            v.shown + 1
        },
    };
    let ops = if suspect && !v.hinted {
        newline_ops() + seq![
            DrawOp::SetColor(TextColor::Hint),
            DrawOp::HintText,
            DrawOp::SetColor(TextColor::Normal),
        ] + newline_ops() + seq![DrawOp::PromptText] + redraw_ops(0, password, v.masked, suspects)
    } else if suspect {
        redraw_ops(v.shown, password, v.masked, suspects)
    } else {
        seq![DrawOp::Unit(glyph(c, v.masked))]
    };
    StepView { state, ops, restart_timer: true, flow: Flow::Continue }
}

/// F2: delete the character at the last flagged index, and shift the
/// remaining flags that pointed past it.
pub open spec fn drop_flagged_step(v: EntryView) -> StepView {
    if v.suspects.len() == 0 {
        unchanged(v)
    } else {
        let idx = v.suspects.last();
        let password = if idx < v.password.len() {
            v.password.remove(idx as int)
        } else {
            v.password
        };
        let suspects = v.suspects.drop_last().map_values(
            |s: usize|
                if s > idx {
                    (s - 1) as usize
                } else {
                    s
                },
        );
        redrawn(v, password, suspects, v.masked)
    }
}

/// What one keystroke does to the state, with `within_window` telling
/// whether it came before the inter-key timer fired.
pub open spec fn step(v: EntryView, key: Key, within_window: bool) -> StepView {
    match key {
        Key::Printable(c) => {
            if is_enter(c) {
                StepView { state: v, ops: newline_ops(), restart_timer: false, flow: Flow::Submit }
            } else if (c as u32) == 0x08 {
                backspace_step(v)
            } else if (c as u32) == 0 {
                unchanged(v)
            } else {
                type_step(v, c, within_window)
            }
        },
        Key::F1 => redrawn(v, v.password, v.suspects, !v.masked),
        Key::F2 => drop_flagged_step(v),
        Key::Escape => StepView {
            state: v,
            ops: Seq::empty(),
            restart_timer: false,
            flow: Flow::Shutdown,
        },
        Key::OtherSpecial => unchanged(v),
    }
}

/// Whether the keystroke adds a character, so that the caller has to find
/// out whether it came within the phantom window.
pub fn needs_window_check(key: &Key) -> (r: bool)
    ensures
        r == (*key matches Key::Printable(c) && is_typed(c)),
{
    match key {
        Key::Printable(c) => {
            let code: u32 = *c as u32;
            code != 0x0d && code != 0x0a && code != 0x08 && code != 0
        },
        _ => false,
    }
}

fn contains_index(suspects: &Vec<usize>, i: usize) -> (r: bool)
    ensures
        r == suspects@.contains(i),
{
    let mut k: usize = 0;
    while k < suspects.len()
        invariant
            k <= suspects@.len(),
            forall|j: int| 0 <= j < k ==> suspects@[j] != i,
        decreases suspects@.len() - k,
    {
        if suspects[k] == i {
            assert(suspects@[k as int] == i);
            return true;
        }
        k = k + 1;
    }
    false
}

/// The drawing of a password area that takes `shown` cells.
fn redraw(shown: usize, password: &Vec<char>, masked: bool, suspects: &Vec<usize>) -> (ops: Vec<DrawOp>)
    ensures
        ops@ == redraw_ops(shown as nat, password@, masked, suspects@),
{
    let mut ops: Vec<DrawOp> = Vec::new();
    let mut i: usize = 0;
    while i < shown
        invariant
            i <= shown,
            ops@ =~= Seq::new(i as nat, |_i: int| DrawOp::Unit(8)),
        decreases shown - i,
    {
        ops.push(DrawOp::Unit(8));
        i = i + 1;
    }
    let ghost back = ops@;
    i = 0;
    while i < shown
        invariant
            i <= shown,
            back == Seq::new(shown as nat, |_i: int| DrawOp::Unit(8)),
            ops@ =~= back + Seq::new(i as nat, |_i: int| DrawOp::Unit(32)),
        decreases shown - i,
    {
        ops.push(DrawOp::Unit(32));
        i = i + 1;
    }
    let ghost blank = ops@;
    i = 0;
    while i < shown
        invariant
            i <= shown,
            blank == Seq::new(shown as nat, |_i: int| DrawOp::Unit(8)) + Seq::new(
                shown as nat,
                |_i: int| DrawOp::Unit(32),
            ),
            ops@ =~= blank + Seq::new(i as nat, |_i: int| DrawOp::Unit(8)),
        decreases shown - i,
    {
        ops.push(DrawOp::Unit(8));
        i = i + 1;
    }
    assert(ops@ =~= erase_ops(shown as nat));
    let n = password.len();
    i = 0;
    assert(password@.take(0) =~= Seq::<char>::empty());
    while i < n
        invariant
            i <= n,
            n == password@.len(),
            ops@ =~= erase_ops(shown as nat) + chars_ops(password@.take(i as int), masked, suspects@),
        decreases n - i,
    {
        let c = password[i];
        let g: u16 = if masked {
            42
        } else {
            ((c as u32) % 0x10000) as u16
        };
        let flagged = !masked && contains_index(suspects, i);
        if flagged {
            ops.push(DrawOp::SetColor(TextColor::Flagged));
            ops.push(DrawOp::Unit(g));
            ops.push(DrawOp::SetColor(TextColor::Normal));
        } else {
            ops.push(DrawOp::Unit(g));
        }
        assert(password@.take(i + 1).drop_last() =~= password@.take(i as int));
        assert(password@.take(i + 1).last() == c);
        i = i + 1;
    }
    assert(password@.take(n as int) =~= password@);
    ops
}

fn push_newline(ops: &mut Vec<DrawOp>)
    ensures
        final(ops)@ == old(ops)@ + newline_ops(),
{
    ops.push(DrawOp::Unit(13));
    ops.push(DrawOp::Unit(10));
}

impl View for PasswordEntry {
    type V = EntryView;

    closed spec fn view(&self) -> EntryView {
        EntryView {
            password: self.password@,
            suspects: self.suspects@,
            prev: self.prev,
            hinted: self.hinted,
            masked: self.masked,
            shown: self.shown as nat,
        }
    }
}

impl PasswordEntry {
    /// Nothing typed yet, the password masked.
    pub fn new() -> (r: PasswordEntry)
        ensures
            r@ == (EntryView {
                password: Seq::empty(),
                suspects: Seq::empty(),
                prev: None,
                hinted: false,
                masked: true,
                shown: 0,
            }),
            r@.wf(),
    {
        PasswordEntry {
            password: Vec::with_capacity(32),
            suspects: Vec::new(),
            prev: None,
            hinted: false,
            masked: true,
            shown: 0,
        }
    }

    /// The characters typed so far.
    pub fn password(&self) -> (r: &Vec<char>)
        ensures
            r@ == self@.password,
    {
        &self.password
    }

    /// The indices of the flagged characters.
    pub fn flagged(&self) -> (r: &Vec<usize>)
        ensures
            r@ == self@.suspects,
    {
        &self.suspects
    }

    /// Whether the password is drawn as asterisks.
    pub fn is_masked(&self) -> (r: bool)
        ensures
            r == self@.masked,
    {
        self.masked
    }

    /// Hands back the password that was typed.
    pub fn into_password(self) -> (r: Vec<char>)
        ensures
            r@ == self@.password,
    {
        self.password
    }

    fn last_typed(&self) -> (r: Option<char>)
        ensures
            r == last_char(self.password@),
    {
        let n = self.password.len();
        if n == 0 {
            None
        } else {
            Some(self.password[n - 1])
        }
    }

    /// Redraws the password area and records that it now takes one cell per
    /// character.
    fn redraw_all(&mut self) -> (ops: Vec<DrawOp>)
        ensures
            ops@ == redraw_ops(old(self)@.shown, old(self)@.password, old(self)@.masked, old(self)@.suspects),
            final(self)@ == (EntryView { shown: old(self)@.password.len(), ..old(self)@ }),
    {
        let ops = redraw(self.shown, &self.password, self.masked, &self.suspects);
        self.shown = self.password.len();
        ops
    }

    fn backspace(&mut self) -> (r: Step)
        ensures
            final(self)@ == backspace_step(old(self)@).state,
            r.ops@ == backspace_step(old(self)@).ops,
            r.restart_timer == backspace_step(old(self)@).restart_timer,
            r.flow == backspace_step(old(self)@).flow,
    {
        let n = self.password.len();
        if n == 0 {
            return Step { ops: Vec::new(), restart_timer: false, flow: Flow::Continue };
        }
        let last = n - 1;
        let ghost old_suspects = self.suspects@;
        self.password.pop();
        let mut kept: Vec<usize> = Vec::new();
        let mut k: usize = 0;
        assert(old_suspects.take(0) =~= Seq::<usize>::empty());
        proof {
            reveal_with_fuel(Seq::<_>::filter, 1);
        }
        while k < self.suspects.len()
            invariant
                k <= self.suspects@.len(),
                self.suspects@ == old_suspects,
                kept@ =~= unflag(old_suspects.take(k as int), last as int),
            decreases self.suspects@.len() - k,
        {
            proof {
                reveal_with_fuel(Seq::<_>::filter, 1);
            }
            let s = self.suspects[k];
            assert(old_suspects.take(k + 1).drop_last() =~= old_suspects.take(k as int));
            assert(old_suspects.take(k + 1).last() == s);
            if s != last {
                kept.push(s);
            }
            k = k + 1;
        }
        assert(old_suspects.take(old_suspects.len() as int) =~= old_suspects);
        self.suspects = kept;
        self.prev = self.last_typed();
        let ops = self.redraw_all();
        Step { ops, restart_timer: false, flow: Flow::Continue }
    }

    fn type_char(&mut self, c: char, within_window: bool) -> (r: Step)
        requires
            old(self)@.wf(),
        ensures
            final(self)@ == type_step(old(self)@, c, within_window).state,
            r.ops@ == type_step(old(self)@, c, within_window).ops,
            r.restart_timer == type_step(old(self)@, c, within_window).restart_timer,
            r.flow == type_step(old(self)@, c, within_window).flow,
            final(self)@.wf(),
    {
        let suspect = within_window && match self.prev {
            Some(p) => match unshifted_twin(p) {
                Some(u) => u == c,
                None => false,
            },
            None => false,
        };
        let idx = self.password.len();
        self.password.push(c);
        let grown = self.password.len();
        proof {
            assert(grown == idx + 1);
            lemma_step_keeps_wf(old(self)@, Key::Printable(c), within_window);
        }
        if suspect {
            self.suspects.push(idx);
        }
        let mut ops: Vec<DrawOp> = Vec::new();
        if suspect && !self.hinted {
            self.hinted = true;
            push_newline(&mut ops);
            ops.push(DrawOp::SetColor(TextColor::Hint));
            ops.push(DrawOp::HintText);
            ops.push(DrawOp::SetColor(TextColor::Normal));
            push_newline(&mut ops);
            ops.push(DrawOp::PromptText);
            self.shown = 0;
            let mut drawn = self.redraw_all();
            ops.append(&mut drawn);
        } else if suspect {
            ops = self.redraw_all();
        } else {
            let g: u16 = if self.masked {
                42
            } else {
                ((c as u32) % 0x10000) as u16
            };
            ops.push(DrawOp::Unit(g));
            self.shown = self.shown + 1;
        }
        self.prev = Some(c);
        Step { ops, restart_timer: true, flow: Flow::Continue }
    }

    fn drop_flagged(&mut self) -> (r: Step)
        ensures
            final(self)@ == drop_flagged_step(old(self)@).state,
            r.ops@ == drop_flagged_step(old(self)@).ops,
            r.restart_timer == drop_flagged_step(old(self)@).restart_timer,
            r.flow == drop_flagged_step(old(self)@).flow,
    {
        let idx = match self.suspects.pop() {
            Some(idx) => idx,
            None => return Step { ops: Vec::new(), restart_timer: false, flow: Flow::Continue },
        };
        if idx < self.password.len() {
            self.password.remove(idx);
        }
        let mut shifted: Vec<usize> = Vec::new();
        std::mem::swap(&mut shifted, &mut self.suspects);
        let ghost rest = shifted@;
        let n = shifted.len();
        let mut k: usize = 0;
        while k < n
            invariant
                k <= n,
                n == rest.len(),
                shifted@.len() == n,
                forall|j: int|
                    0 <= j < k ==> #[trigger] shifted@[j] == (if rest[j] > idx {
                        (rest[j] - 1) as usize
                    } else {
                        rest[j]
                    }),
                forall|j: int| k <= j < n ==> #[trigger] shifted@[j] == rest[j],
            decreases n - k,
        {
            let s = shifted[k];
            if s > idx {
                shifted.set(k, s - 1);
            }
            k = k + 1;
        }
        assert(shifted@ =~= rest.map_values(
            |s: usize|
                if s > idx {
                    (s - 1) as usize
                } else {
                    s
                },
        ));
        self.suspects = shifted;
        self.prev = self.last_typed();
        let ops = self.redraw_all();
        Step { ops, restart_timer: false, flow: Flow::Continue }
    }

    /// Handles one keystroke; `within_window` tells whether it came before
    /// the inter-key timer fired, and matters only for a key that adds a
    /// character (see `needs_window_check`).
    pub fn handle_key(&mut self, key: Key, within_window: bool) -> (r: Step)
        requires
            old(self)@.wf(),
        ensures
            final(self)@ == step(old(self)@, key, within_window).state,
            r.ops@ == step(old(self)@, key, within_window).ops,
            r.restart_timer == step(old(self)@, key, within_window).restart_timer,
            r.flow == step(old(self)@, key, within_window).flow,
            final(self)@.wf(),
            key matches Key::Printable(c) ==> ((c as u32) != 0x0d && (c as u32) != 0x0a && (c as u32)
                != 0x08 && (c as u32) != 0 ==> final(self)@.password == old(self)@.password.push(c)),
    {
        proof {
            if let Key::Printable(c) = key {
                if (c as u32) != 0x0d && (c as u32) != 0x0a && (c as u32) != 0x08 && (c as u32) != 0 {
                    lemma_keys_do_what_they_say(self@, c, within_window);
                }
            }
        }
        match key {
            Key::Printable(c) => {
                let code: u32 = c as u32;
                if code == 0x0d || code == 0x0a {
                    let mut ops: Vec<DrawOp> = Vec::new();
                    push_newline(&mut ops);
                    Step { ops, restart_timer: false, flow: Flow::Submit }
                } else if code == 0x08 {
                    proof {
                        lemma_step_keeps_wf(self@, key, within_window);
                    }
                    self.backspace()
                } else if code == 0 {
                    Step { ops: Vec::new(), restart_timer: false, flow: Flow::Continue }
                } else {
                    self.type_char(c, within_window)
                }
            },
            Key::F1 => {
                proof {
                    lemma_step_keeps_wf(self@, key, within_window);
                }
                self.masked = !self.masked;
                let ops = self.redraw_all();
                Step { ops, restart_timer: false, flow: Flow::Continue }
            },
            Key::F2 => {
                proof {
                    lemma_step_keeps_wf(self@, key, within_window);
                }
                self.drop_flagged()
            },
            Key::Escape => Step { ops: Vec::new(), restart_timer: false, flow: Flow::Shutdown },
            Key::OtherSpecial => Step { ops: Vec::new(), restart_timer: false, flow: Flow::Continue },
        }
    }
}

/// Unflagging an index that carries no flag changes nothing.
proof fn lemma_unflag_absent(s: Seq<usize>, i: int)
    requires
        forall|k: int| 0 <= k < s.len() ==> #[trigger] s[k] != i,
    ensures
        unflag(s, i) == s,
    decreases s.len(),
{
    reveal_with_fuel(Seq::<_>::filter, 1);
    if s.len() > 0 {
        lemma_unflag_absent(s.drop_last(), i);
        assert(s.drop_last().push(s.last()) =~= s);
    }
}

/// In a well-formed entry, dropping the flag of the last character drops
/// at most the last flag.
proof fn lemma_unflag_last(v: EntryView)
    requires
        v.wf(),
        v.password.len() > 0,
    ensures
        unflag(v.suspects, v.password.len() - 1) == (if v.suspects.len() > 0
            && v.suspects.last() == v.password.len() - 1 {
            v.suspects.drop_last()
        } else {
            v.suspects
        }),
{
    let last = v.password.len() - 1;
    let s = v.suspects;
    if s.len() > 0 && s.last() == last {
        reveal_with_fuel(Seq::<_>::filter, 1);
        assert forall|k: int| 0 <= k < s.drop_last().len() implies #[trigger] s.drop_last()[k] != last by {
            assert(s[k] < s[s.len() - 1]);
        }
        lemma_unflag_absent(s.drop_last(), last);
    } else {
        assert forall|k: int| 0 <= k < s.len() implies #[trigger] s[k] != last by {
            if k < s.len() - 1 {
                assert(s[k] < s[s.len() - 1]);
            }
        }
        lemma_unflag_absent(s, last);
    }
}

/// In a well-formed entry, deleting the last flagged character shifts no
/// other flag: every other flag points before it.
proof fn lemma_drop_flagged_keeps_other_flags(v: EntryView)
    requires
        v.wf(),
        v.suspects.len() > 0,
    ensures
        v.suspects.last() < v.password.len(),
        v.suspects.drop_last().map_values(
            |s: usize|
                if s > v.suspects.last() {
                    (s - 1) as usize
                } else {
                    s
                },
        ) == v.suspects.drop_last(),
{
    let idx = v.suspects.last();
    let rest = v.suspects.drop_last();
    assert forall|i: int| 0 <= i < rest.len() implies #[trigger] rest[i] < idx by {
        assert(v.suspects[i] < v.suspects[v.suspects.len() - 1]);
    }
    assert(rest.map_values(
        |s: usize|
            if s > idx {
                (s - 1) as usize
            } else {
                s
            },
    ) =~= rest);
}

/// Every keystroke keeps the entry well formed (short of a password one
/// character short of the address space, which cannot grow further).
pub proof fn lemma_step_keeps_wf(v: EntryView, key: Key, within_window: bool)
    requires
        v.wf(),
        key matches Key::Printable(c) && is_typed(c) ==> v.password.len() < usize::MAX,
    ensures
        step(v, key, within_window).state.wf(),
{
    match key {
        Key::Printable(c) => {
            if is_enter(c) {
            } else if (c as u32) == 0x08 {
                if v.password.len() > 0 {
                    lemma_unflag_last(v);
                    let w = backspace_step(v).state;
                    let sv = v.suspects;
                    if sv.len() > 0 && sv.last() == v.password.len() - 1 {
                        assert forall|k: int| 0 <= k < w.suspects.len() implies w.suspects[k] < w.password.len() by {
                            assert(sv[k] < sv[sv.len() - 1]);
                        }
                    } else {
                        assert forall|k: int| 0 <= k < w.suspects.len() implies w.suspects[k] < w.password.len() by {
                            if k < sv.len() - 1 {
                                assert(sv[k] < sv[sv.len() - 1]);
                            }
                        }
                    }
                }
            } else if (c as u32) == 0 {
            } else {
                let w = type_step(v, c, within_window).state;
                assert(w.password.len() == v.password.len() + 1);
            }
        },
        Key::F1 => {},
        Key::F2 => {
            if v.suspects.len() > 0 {
                lemma_drop_flagged_keeps_other_flags(v);
            }
        },
        _ => {},
    }
}

/// Only backspaces, blanks and asterisks are drawn for a masked password.
proof fn lemma_masked_chars_ops(password: Seq<char>, suspects: Seq<usize>)
    ensures
        forall|i: int|
            0 <= i < chars_ops(password, true, suspects).len() ==> #[trigger] chars_ops(
                password,
                true,
                suspects,
            )[i] == DrawOp::Unit(42),
    decreases password.len(),
{
    if password.len() > 0 {
        lemma_masked_chars_ops(password.drop_last(), suspects);
    }
}

/// The code units that a masked entry may put on screen: backspace, line
/// feed, carriage return, blank and asterisk.
pub open spec fn reveals_nothing(ops: Seq<DrawOp>) -> bool {
    forall|i: int|
        0 <= i < ops.len() ==> (#[trigger] ops[i] matches DrawOp::Unit(u) ==> u == 8 || u == 10
            || u == 13 || u == 32 || u == 42)
}

/// While the password is masked, no keystroke but F1 (which reveals it on
/// purpose) draws any of its characters.
pub proof fn lemma_masked_entry_reveals_nothing(v: EntryView, key: Key, within_window: bool)
    requires
        v.masked,
        key != Key::F1,
    ensures
        reveals_nothing(step(v, key, within_window).ops),
{
    let r = step(v, key, within_window);
    assert forall|shown: nat, password: Seq<char>, suspects: Seq<usize>|
        reveals_nothing(#[trigger] redraw_ops(shown, password, true, suspects)) by {
        lemma_masked_chars_ops(password, suspects);
        let e = erase_ops(shown);
        let d = redraw_ops(shown, password, true, suspects);
        assert forall|i: int| 0 <= i < d.len() implies (#[trigger] d[i] matches DrawOp::Unit(u) ==> u
            == 8 || u == 10 || u == 13 || u == 32 || u == 42) by {
            if i < e.len() {
                assert(d[i] == e[i]);
            } else {
                assert(d[i] == chars_ops(password, true, suspects)[i - e.len()]);
            }
        }
    }
    if let Key::Printable(c) = key {
        let t = type_step(v, c, within_window);
        if flags(v, c, within_window) && !v.hinted {
            let head = newline_ops() + seq![
                DrawOp::SetColor(TextColor::Hint),
                DrawOp::HintText,
                DrawOp::SetColor(TextColor::Normal),
            ] + newline_ops() + seq![DrawOp::PromptText];
            let tail = redraw_ops(0, t.state.password, true, t.state.suspects);
            assert(t.ops == head + tail);
            assert forall|i: int| 0 <= i < t.ops.len() implies (#[trigger] t.ops[i] matches DrawOp::Unit(
                u,
            ) ==> u == 8 || u == 10 || u == 13 || u == 32 || u == 42) by {
                if i >= head.len() {
                    assert(t.ops[i] == tail[i - head.len()]);
                }
            }
        }
    }
}

/// Pressing F1 twice leaves the entry as it was.
pub proof fn lemma_show_twice_restores(v: EntryView, w1: bool, w2: bool)
    requires
        v.wf(),
    ensures
        step(step(v, Key::F1, w1).state, Key::F1, w2).state == v,
{
}

/// Backspace undoes a typed character: the password, its flags, the last
/// character and the screen are as before the character was typed.
pub proof fn lemma_backspace_undoes_typing(v: EntryView, c: char, w1: bool, w2: bool)
    requires
        v.wf(),
        is_typed(c),
        v.password.len() < usize::MAX,
    ensures
        ({
            let typed = step(v, Key::Printable(c), w1).state;
            let back = step(typed, Key::Printable('\x08'), w2).state;
            &&& back.password == v.password
            &&& back.suspects == v.suspects
            &&& back.prev == v.prev
            &&& back.masked == v.masked
            &&& back.shown == v.shown
        }),
{
    let typed = step(v, Key::Printable(c), w1).state;
    lemma_step_keeps_wf(v, Key::Printable(c), w1);
    lemma_unflag_last(typed);
    assert(typed.password.drop_last() =~= v.password);
    if flags(v, c, w1) {
        assert(typed.suspects.drop_last() =~= v.suspects);
    } else {
        if v.suspects.len() > 0 {
            assert(v.suspects[v.suspects.len() - 1] < v.password.len());
        }
    }
}

/// F2 deletes the character at the last flagged index and drops that flag;
/// the other flags stay as they were.
pub proof fn lemma_drop_flagged_deletes_it(v: EntryView, w: bool)
    requires
        v.wf(),
        v.suspects.len() > 0,
    ensures
        step(v, Key::F2, w).state.password == v.password.remove(v.suspects.last() as int),
        step(v, Key::F2, w).state.suspects == v.suspects.drop_last(),
{
    lemma_drop_flagged_keeps_other_flags(v);
}

/// A typed character is always kept, and it is flagged exactly when it
/// came within the window and is the unshifted twin of the password's last
/// character.
pub proof fn lemma_typed_char_flagged_iff_twin(v: EntryView, c: char, w: bool)
    requires
        v.wf(),
        is_typed(c),
    ensures
        step(v, Key::Printable(c), w).state.password == v.password.push(c),
        step(v, Key::Printable(c), w).state.suspects == (if w && v.password.len() > 0 && crate::keymap::twin_of(
            v.password.last(),
        ) == Some(c) {
            v.suspects.push(v.password.len() as usize)
        } else {
            v.suspects
        }),
{
}

/// What each key does to the password, with the key codes written out:
/// any character other than carriage return (0x0d), line feed (0x0a),
/// backspace (0x08) and NUL is appended, space included, and while masked
/// and unflagged it is echoed as one asterisk; backspace deletes the last
/// character; carriage return and line feed submit the password as it is;
/// NUL changes nothing; Escape shuts down.
pub proof fn lemma_keys_do_what_they_say(v: EntryView, c: char, w: bool)
    ensures
        (c as u32) != 0x0d && (c as u32) != 0x0a && (c as u32) != 0x08 && (c as u32) != 0 ==> {
            let r = step(v, Key::Printable(c), w);
            &&& r.state.password == v.password.push(c)
            &&& r.state.password.len() == v.password.len() + 1
            &&& r.flow == Flow::Continue
            &&& (v.masked && !w) ==> r.ops == seq![DrawOp::Unit(42)]
        },
        (c as u32) == 0x08 ==> step(v, Key::Printable(c), w).state.password == (if v.password.len()
            > 0 {
            v.password.subrange(0, v.password.len() - 1)
        } else {
            v.password
        }),
        ((c as u32) == 0x0d || (c as u32) == 0x0a) ==> step(v, Key::Printable(c), w).flow
            == Flow::Submit && step(v, Key::Printable(c), w).state == v,
        (c as u32) == 0 ==> step(v, Key::Printable(c), w).state == v && step(
            v,
            Key::Printable(c),
            w,
        ).ops.len() == 0,
        step(v, Key::Escape, w).flow == Flow::Shutdown,
        step(v, Key::Escape, w).state == v,
{
    if (c as u32) == 0x08 && v.password.len() > 0 {
        assert(v.password.drop_last() =~= v.password.subrange(0, v.password.len() - 1));
    }
}

/// Space is a character like any other: it is appended to the password.
pub proof fn lemma_space_is_kept(v: EntryView, w: bool)
    ensures
        step(v, Key::Printable(' '), w).state.password == v.password.push(' '),
{
    lemma_keys_do_what_they_say(v, ' ', w);
}

} // verus!
