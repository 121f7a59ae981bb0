use sed_unlock::password::{DrawOp, Flow, Key, PasswordEntry, TextColor};

/// Feeds keys until Enter; returns the password handed back and all drawing.
fn run(inputs: &[(Key, bool)]) -> (Option<String>, Vec<DrawOp>) {
    let mut e = PasswordEntry::new();
    let mut ops = Vec::new();
    for &(key, within) in inputs {
        let step = e.handle_key(key, within);
        ops.extend(step.ops);
        if step.flow == Flow::Submit {
            return (Some(e.into_password().into_iter().collect()), ops);
        }
    }
    (None, ops)
}

fn keys(text: &str, within: bool) -> Vec<(Key, bool)> {
    text.chars()
        .map(|c| (if c == '#' { Key::F1 } else { Key::Printable(c) }, within))
        .collect()
}

#[test]
fn timing_does_not_change_the_password() {
    let text = "}]Aa?/x\u{8}y\r";
    let (slow, _) = run(&keys(text, false));
    let (fast, _) = run(&keys(text, true));
    assert_eq!(slow.as_deref(), Some("}]Aa?/y"));
    assert_eq!(fast, slow);
}

#[test]
fn f1_presses_do_not_change_the_password() {
    let (plain, _) = run(&keys("Ab\u{8}c\r", false));
    let (shown, _) = run(&keys("#A#b#\u{8}c#\r", false));
    assert_eq!(plain.as_deref(), Some("Ac"));
    assert_eq!(shown, plain);
}

#[test]
fn hint_is_drawn_once() {
    let count = |ops: &[DrawOp]| ops.iter().filter(|o| **o == DrawOp::HintText).count();
    let (_, ops) = run(&keys("Aa%5Bb\r", true));
    assert_eq!(count(&ops), 1);
    let (_, ops) = run(&keys("Aa%5Bb\r", false));
    assert_eq!(count(&ops), 0);
}

#[test]
fn masked_drawing_depends_only_on_length() {
    let (_, a) = run(&keys("hunter2\u{8}\u{8}x\r", false));
    let (_, b) = run(&keys("zzzzzzz\u{8}\u{8}q\r", false));
    assert_eq!(a, b);
}

/// The console as the screen model has it: cells after the prompt, cursor, colour.
fn screen(ops: &[DrawOp]) -> Vec<(u16, TextColor)> {
    let mut cells: Vec<(u16, TextColor)> = Vec::new();
    let mut cursor = 0usize;
    let mut color = TextColor::Normal;
    for op in ops {
        match *op {
            DrawOp::Unit(8) => cursor = cursor.saturating_sub(1),
            DrawOp::Unit(0) => {}
            DrawOp::Unit(10) | DrawOp::Unit(13) | DrawOp::HintText | DrawOp::PromptText => {
                cells.clear();
                cursor = 0;
            }
            DrawOp::Unit(u) => {
                if cursor < cells.len() {
                    cells[cursor] = (u, color);
                } else {
                    cells.push((u, color));
                }
                cursor += 1;
            }
            DrawOp::SetColor(c) => color = c,
        }
    }
    cells
}

#[test]
fn screen_shows_the_password_after_each_key() {
    let inputs = keys("}]ab\u{8}#Cc#c", true);
    let mut e = PasswordEntry::new();
    let mut ops = Vec::new();
    for &(key, within) in &inputs {
        ops.extend(e.handle_key(key, within).ops);
        let cells = screen(&ops);
        let n = e.password().len();
        for (i, ch) in e.password().iter().enumerate() {
            let expected = if e.is_masked() {
                (42, TextColor::Normal)
            } else if e.flagged().contains(&i) {
                (*ch as u16, TextColor::Flagged)
            } else {
                (*ch as u16, TextColor::Normal)
            };
            assert_eq!(cells[i], expected);
        }
        assert!(cells[n..].iter().all(|c| c.0 == 32));
    }
}
