use sed_unlock::password::{needs_window_check, DrawOp, Flow, Key, PasswordEntry, TextColor};

const BS: char = '\u{8}';

fn feed(entry: &mut PasswordEntry, key: Key, within: bool) -> (Vec<DrawOp>, bool, Flow) {
    let step = entry.handle_key(key, within);
    (step.ops, step.restart_timer, step.flow)
}

fn type_str(entry: &mut PasswordEntry, text: &str) {
    for c in text.chars() {
        feed(entry, Key::Printable(c), false);
    }
}

fn units(ops: &[DrawOp]) -> Vec<u16> {
    ops.iter()
        .filter_map(|op| match op {
            DrawOp::Unit(u) => Some(*u),
            _ => None,
        })
        .collect()
}

#[test]
fn typed_characters_are_echoed_as_asterisks() {
    let mut e = PasswordEntry::new();
    let (ops, restart, flow) = feed(&mut e, Key::Printable('s'), false);
    assert_eq!(ops, vec![DrawOp::Unit(42)]);
    assert!(restart);
    assert_eq!(flow, Flow::Continue);
    type_str(&mut e, "ecret");
    assert_eq!(e.password().iter().collect::<String>(), "secret");
    assert!(e.flagged().is_empty());
}

#[test]
fn enter_submits_the_password() {
    let mut e = PasswordEntry::new();
    type_str(&mut e, "pw");
    let (ops, restart, flow) = feed(&mut e, Key::Printable('\r'), false);
    assert_eq!(ops, vec![DrawOp::Unit(13), DrawOp::Unit(10)]);
    assert!(!restart);
    assert_eq!(flow, Flow::Submit);
    let (_, _, flow) = feed(&mut e, Key::Printable('\n'), false);
    assert_eq!(flow, Flow::Submit);
    assert_eq!(e.into_password(), vec!['p', 'w']);
}

#[test]
fn escape_shuts_down_and_nul_is_ignored() {
    let mut e = PasswordEntry::new();
    let (ops, _, flow) = feed(&mut e, Key::Escape, false);
    assert!(ops.is_empty());
    assert_eq!(flow, Flow::Shutdown);
    let (ops, restart, flow) = feed(&mut e, Key::Printable('\0'), true);
    assert!(ops.is_empty());
    assert!(!restart);
    assert_eq!(flow, Flow::Continue);
    let (ops, _, flow) = feed(&mut e, Key::OtherSpecial, true);
    assert!(ops.is_empty());
    assert_eq!(flow, Flow::Continue);
    assert!(e.password().is_empty());
}

#[test]
fn backspace_erases_and_redraws() {
    let mut e = PasswordEntry::new();
    type_str(&mut e, "abc");
    let (ops, restart, _) = feed(&mut e, Key::Printable(BS), false);
    assert!(!restart);
    // three cells erased, two asterisks drawn
    assert_eq!(units(&ops), vec![8, 8, 8, 32, 32, 32, 8, 8, 8, 42, 42]);
    assert_eq!(e.password(), &vec!['a', 'b']);
    // backspace on an empty password does nothing
    let mut empty = PasswordEntry::new();
    let (ops, _, _) = feed(&mut empty, Key::Printable(BS), false);
    assert!(ops.is_empty());
}

#[test]
fn twin_within_window_is_flagged_and_hint_shown_once() {
    let mut e = PasswordEntry::new();
    feed(&mut e, Key::Printable('}'), false);
    let (ops, restart, _) = feed(&mut e, Key::Printable(']'), true);
    assert!(restart);
    assert_eq!(e.flagged(), &vec![1]);
    assert_eq!(
        ops,
        vec![
            DrawOp::Unit(13),
            DrawOp::Unit(10),
            DrawOp::SetColor(TextColor::Hint),
            DrawOp::HintText,
            DrawOp::SetColor(TextColor::Normal),
            DrawOp::Unit(13),
            DrawOp::Unit(10),
            DrawOp::PromptText,
            DrawOp::Unit(42),
            DrawOp::Unit(42),
        ]
    );
    // a second phantom only redraws
    feed(&mut e, Key::Printable('A'), false);
    let (ops, _, _) = feed(&mut e, Key::Printable('a'), true);
    assert_eq!(e.flagged(), &vec![1, 3]);
    assert_eq!(units(&ops), vec![8, 8, 8, 32, 32, 32, 8, 8, 8, 42, 42, 42, 42]);
}

#[test]
fn twin_outside_window_or_not_a_twin_is_not_flagged() {
    let mut e = PasswordEntry::new();
    feed(&mut e, Key::Printable('}'), false);
    feed(&mut e, Key::Printable(']'), false);
    feed(&mut e, Key::Printable('b'), true);
    feed(&mut e, Key::Printable('B'), true);
    assert!(e.flagged().is_empty());
    assert_eq!(e.password().len(), 4);
}

#[test]
fn f1_reveals_with_flagged_in_red_and_f1_again_masks() {
    let mut e = PasswordEntry::new();
    feed(&mut e, Key::Printable('X'), false);
    feed(&mut e, Key::Printable('x'), true);
    let (ops, _, _) = feed(&mut e, Key::F1, false);
    assert!(!e.is_masked());
    assert_eq!(
        ops,
        vec![
            DrawOp::Unit(8),
            DrawOp::Unit(8),
            DrawOp::Unit(32),
            DrawOp::Unit(32),
            DrawOp::Unit(8),
            DrawOp::Unit(8),
            DrawOp::Unit('X' as u16),
            DrawOp::SetColor(TextColor::Flagged),
            DrawOp::Unit('x' as u16),
            DrawOp::SetColor(TextColor::Normal),
        ]
    );
    // revealed: typing echoes the character itself
    let (ops, _, _) = feed(&mut e, Key::Printable('q'), false);
    assert_eq!(ops, vec![DrawOp::Unit('q' as u16)]);
    let (ops, _, _) = feed(&mut e, Key::F1, false);
    assert!(e.is_masked());
    assert_eq!(units(&ops), vec![8, 8, 8, 32, 32, 32, 8, 8, 8, 42, 42, 42]);
    assert_eq!(e.password(), &vec!['X', 'x', 'q']);
    assert_eq!(e.flagged(), &vec![1]);
}

#[test]
fn characters_beyond_the_bmp_are_cut_to_sixteen_bits() {
    let mut e = PasswordEntry::new();
    feed(&mut e, Key::F1, false);
    let (ops, _, _) = feed(&mut e, Key::Printable('\u{1F600}'), false);
    assert_eq!(ops, vec![DrawOp::Unit(0xF600)]);
}

#[test]
fn f2_deletes_the_last_flagged_character() {
    let mut e = PasswordEntry::new();
    type_str(&mut e, "ab");
    feed(&mut e, Key::Printable('%'), false);
    feed(&mut e, Key::Printable('5'), true); // flagged at 3
    feed(&mut e, Key::Printable('c'), false);
    feed(&mut e, Key::Printable('C'), false);
    feed(&mut e, Key::Printable('c'), true); // flagged at 6
    assert_eq!(e.flagged(), &vec![3, 6]);
    let (ops, restart, _) = feed(&mut e, Key::F2, false);
    assert!(!restart);
    assert_eq!(e.password().iter().collect::<String>(), "ab%5cC");
    assert_eq!(e.flagged(), &vec![3]);
    assert_eq!(units(&ops).len(), 7 * 3 + 6);
    feed(&mut e, Key::F2, false);
    assert_eq!(e.password().iter().collect::<String>(), "ab%cC");
    assert!(e.flagged().is_empty());
    // nothing flagged: F2 does nothing
    let (ops, _, _) = feed(&mut e, Key::F2, false);
    assert!(ops.is_empty());
    assert_eq!(e.password().len(), 5);
}

#[test]
fn backspace_over_a_flagged_character_drops_its_flag() {
    let mut e = PasswordEntry::new();
    feed(&mut e, Key::Printable('?'), false);
    feed(&mut e, Key::Printable('/'), true);
    assert_eq!(e.flagged(), &vec![1]);
    feed(&mut e, Key::Printable(BS), false);
    assert!(e.flagged().is_empty());
    assert_eq!(e.password(), &vec!['?']);
    // the last character is '?' again, so '/' within the window is flagged again
    feed(&mut e, Key::Printable('/'), true);
    assert_eq!(e.flagged(), &vec![1]);
}

#[test]
fn masked_entry_never_draws_a_password_character() {
    let mut e = PasswordEntry::new();
    for (key, within) in [
        (Key::Printable('Q'), false),
        (Key::Printable('q'), true),
        (Key::Printable('w'), false),
        (Key::Printable(BS), false),
        (Key::F2, false),
        (Key::Printable('Z'), true),
        (Key::Printable('\r'), false),
    ] {
        let (ops, _, _) = feed(&mut e, key, within);
        for u in units(&ops) {
            assert!([8, 10, 13, 32, 42].contains(&u), "{}", u);
        }
    }
}

#[test]
fn window_check_only_for_keys_that_add_characters() {
    assert!(needs_window_check(&Key::Printable('a')));
    assert!(!needs_window_check(&Key::Printable('\r')));
    assert!(!needs_window_check(&Key::Printable('\n')));
    assert!(!needs_window_check(&Key::Printable(BS)));
    assert!(!needs_window_check(&Key::Printable('\0')));
    assert!(!needs_window_check(&Key::F1));
    assert!(!needs_window_check(&Key::Escape));
}
