use seq_rs::builder::{create_diagram, Direction, GroupKind, Statement};
use seq_rs::config::Config;
use seq_rs::draw::{render, Anchor, Colour, Primitive, RectStyle};
use seq_rs::layout::calculate_grid;
use seq_rs::message::LineStyle;
use seq_rs::participant::ParticipantKind;

fn participant(name: &str) -> Statement {
    Statement::ParticipantDefinition {
        name: name.to_string(),
        label: name.to_string(),
        kind: ParticipantKind::Default,
    }
}

fn message(from: &str, to: &str, label: &str) -> Statement {
    Statement::Message {
        from: from.to_string(),
        to: to.to_string(),
        label: label.to_string(),
        style: LineStyle::Plain,
        activation_modifier: None,
    }
}

fn text(t: &str, bracketed: bool, x: i128, y: i128, font_size: u32, anchor: Anchor) -> Primitive {
    Primitive::Text { text: t.to_string(), bracketed, x, y, font_size, anchor }
}

#[test]
fn participants_and_message_primitives() {
    let d = create_diagram(&vec![participant("A"), participant("B"), message("A", "B", "hi")], Config::default()).unwrap();
    let grid = calculate_grid(&d).unwrap();
    let prims = render(&d, &grid, false);
    assert_eq!(prims.len(), 12);
    assert_eq!(
        prims[0],
        Primitive::Line { x1: 120, y1: 52, x2: 120, y2: 132, width: 3, dash: 0, colour: Colour::MediumBlue }
    );
    assert_eq!(prims[1], Primitive::Rect { x: 90, y: 20, width: 60, height: 32, radius: 4, style: RectStyle::Plain });
    assert_eq!(prims[2], text("A", false, 120, 28, 16, Anchor::Middle));
    assert_eq!(prims[3], Primitive::Rect { x: 90, y: 132, width: 60, height: 32, radius: 4, style: RectStyle::Plain });
    assert_eq!(prims[4], text("A", false, 120, 140, 16, Anchor::Middle));
    assert_eq!(prims[6], Primitive::Rect { x: 250, y: 20, width: 60, height: 32, radius: 4, style: RectStyle::Plain });
    assert_eq!(prims[10], Primitive::Arrow { x1: 120, y1: 102, x2: 280, y2: 102, dash: 0 });
    assert_eq!(prims[11], text("hi", false, 200, 73, 24, Anchor::Middle));
    let with_debug = render(&d, &grid, true);
    assert_eq!(with_debug.len(), 12 + 4 + 6);
    assert_eq!(
        with_debug[12],
        Primitive::Line { x1: 0, y1: 0, x2: 0, y2: 184, width: 1, dash: 10, colour: Colour::Debug }
    );
    assert_eq!(
        with_debug[21],
        Primitive::Line { x1: 0, y1: 164, x2: 320, y2: 164, width: 1, dash: 10, colour: Colour::Debug }
    );
}

#[test]
fn self_message_loops_right_of_the_lifeline() {
    let d = create_diagram(&vec![participant("A"), message("A", "A", "me")], Config::default()).unwrap();
    let grid = calculate_grid(&d).unwrap();
    let prims = render(&d, &grid, false);
    let x = grid.get_col_center(0) as i128;
    let top = grid.get_row_top(1) as i128;
    let bottom = grid.get_row_bottom(1) as i128;
    let y_start = top + (bottom - top) / 2 - 20;
    let n = prims.len();
    assert_eq!(
        prims[n - 4],
        Primitive::Line { x1: x, y1: y_start, x2: x + 35, y2: y_start, width: 1, dash: 0, colour: Colour::Black }
    );
    assert_eq!(prims[n - 2], Primitive::Arrow { x1: x + 35, y1: bottom - 10, x2: x, y2: bottom - 10, dash: 0 });
    assert_eq!(prims[n - 1], text("me", false, x + 45, y_start, 24, Anchor::Start));
}

#[test]
fn separator_and_group_primitives() {
    let d = create_diagram(
        &vec![
            participant("A"),
            participant("B"),
            Statement::GroupStart(GroupKind::Alt, "ok".to_string()),
            message("A", "B", ""),
            Statement::AltElse("fail".to_string()),
            message("B", "A", ""),
            Statement::GroupEnd,
            Statement::Separator("end".to_string()),
            Statement::Note { label: "n".to_string(), direction: Direction::Over(vec!["A".to_string(), "B".to_string()]) },
        ],
        Config::default(),
    )
    .unwrap();
    let grid = calculate_grid(&d).unwrap();
    let prims = render(&d, &grid, false);
    let a = grid.get_col_center(0) as i128;
    let b = grid.get_col_center(1) as i128;
    let group_top = grid.get_row_top(1) as i128;
    let group_bottom = grid.get_row_bottom(5) as i128;
    let group_box = Primitive::Rect {
        x: a - 10,
        y: group_top,
        width: b - a + 20,
        height: group_bottom - group_top,
        radius: 5,
        style: RectStyle::GroupBox,
    };
    assert!(prims.contains(&group_box));
    assert!(prims.contains(&text("ok", true, a - 10 + 43 + 10, group_top, 12, Anchor::Left)));
    let case_top = grid.get_row_top(3) as i128;
    assert!(prims.contains(&Primitive::Line {
        x1: a - 10,
        y1: case_top,
        x2: b + 10,
        y2: case_top,
        width: 2,
        dash: 10,
        colour: Colour::MediumPurple
    }));
    assert!(prims.contains(&text("fail", true, a, case_top, 12, Anchor::Left)));
    let sep_top = grid.get_row_top(6) as i128;
    let sep_bottom = grid.get_row_bottom(6) as i128;
    let width = grid.width() as i128;
    let h = sep_bottom - sep_top;
    assert!(prims.contains(&Primitive::Line {
        x1: 0,
        y1: sep_bottom - h / 3,
        x2: width,
        y2: sep_bottom - h / 3,
        width: 1,
        dash: 0,
        colour: Colour::MediumPurple
    }));
    assert!(prims.contains(&text("end", false, width / 2, sep_top, 12, Anchor::Middle)));
    let note_top = grid.get_row_top(7) as i128;
    let centre = (a + b) / 2;
    let note_x = centre - 3 + 5;
    assert!(prims.contains(&Primitive::NoteBox { x: note_x - 5, y: note_top, width: 7 + 10, height: 17 }));
}
