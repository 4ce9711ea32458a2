use seq_rs::builder::{create_diagram, ActivationModifier, Direction, GroupKind, Statement};
use seq_rs::config::Config;
use seq_rs::diagram::{SequenceDiagram, TimelineEvent};
use seq_rs::error::Error;
use seq_rs::group::{group_col_range, Group};
use seq_rs::layout::{
    calculate_grid, collect_reserved_widths, sorted_for_resolution, string_width, ReservedWidth,
};
use seq_rs::message::{LineStyle, Message, MessageSent};
use seq_rs::note::{Note, NoteConfig, NoteOrientation};
use seq_rs::participant::{
    get_participant_width, Activation, Participant, ParticipantConfig, ParticipantKind,
};
use seq_rs::separator::{Separator, SeparatorConfig};

fn participant(name: &str) -> Statement {
    Statement::ParticipantDefinition {
        name: name.to_string(),
        label: name.to_string(),
        kind: ParticipantKind::Default,
    }
}

fn message(from: &str, to: &str, label: &str) -> Statement {
    Statement::Message {
        from: from.to_string(),
        to: to.to_string(),
        label: label.to_string(),
        style: LineStyle::Plain,
        activation_modifier: None,
    }
}

fn build(stmts: Vec<Statement>) -> Result<SequenceDiagram, Error> {
    create_diagram(&stmts, Config::default())
}

fn two_participants() -> SequenceDiagram {
    build(vec![participant("A"), participant("B"), message("A", "B", "hi")]).unwrap()
}

#[test]
fn string_width_is_nine_fourteenths_per_char() {
    assert_eq!(string_width("abcd", 14), 36);
    assert_eq!(string_width("", 12), 0);
    assert_eq!(string_width("ab", 24), 30);
    assert_eq!(string_width("Hello", 14), 45);
}

#[test]
fn text_width_counts_utf8_bytes() {
    assert_eq!(string_width("\u{e9}", 14), 18);
    assert_eq!(string_width("\u{65e5}", 14), 27);
    let p = Participant::new("\u{e9}".to_string(), ParticipantKind::Default, ParticipantConfig { font_size: 16 });
    assert_eq!(get_participant_width(&p), 90);
    let note = Note {
        orientation: NoteOrientation::Over(vec![]),
        label: "\u{e9}\nab".to_string(),
        config: NoteConfig { font_size: 12 },
    };
    assert_eq!(note.width(), 15);
    assert_eq!(note.height(), 30);
    let sep = Separator::new("\u{e9}".to_string(), SeparatorConfig { font_size: 12 });
    assert_eq!(sep.width(), 18);
}

#[test]
fn participant_width_adds_padding_and_space() {
    let p = Participant::new("A".to_string(), ParticipantKind::Default, ParticipantConfig { font_size: 16 });
    assert_eq!(get_participant_width(&p), 80);
    assert_eq!(p.height(), 32);
    let actor = Participant::new("A".to_string(), ParticipantKind::Actor, ParticipantConfig { font_size: 16 });
    assert_eq!(actor.height(), 64);
    let db = Participant::new("A".to_string(), ParticipantKind::Database, ParticipantConfig { font_size: 16 });
    assert_eq!(db.height(), 48);
}

#[test]
fn grid_of_two_participants_and_a_message() {
    let d = two_participants();
    let grid = calculate_grid(&d).unwrap();
    assert_eq!(grid.cols, vec![0, 120, 280, 320]);
    assert_eq!(grid.row_bounds, vec![20, 52, 72, 112, 132, 164, 184]);
    assert_eq!(grid.num_rows(), 3);
    assert_eq!(grid.get_col_center(1), 280);
    assert_eq!(grid.get_row_top(1), 72);
    assert_eq!(grid.get_row_bottom(1), 112);
    assert_eq!(grid.get_row_height(1), 40);
    assert_eq!(grid.get_row_center(1), 92);
    assert_eq!(grid.width(), 320);
    assert_eq!(grid.height(), 184);
}

#[test]
fn columns_are_two_more_than_participants_and_increase() {
    let d = build(vec![
        participant("A"),
        participant("Bob"),
        participant("Carol"),
        message("A", "Carol", "a long label here"),
        message("Bob", "Bob", "self"),
    ])
    .unwrap();
    let grid = calculate_grid(&d).unwrap();
    assert_eq!(grid.cols.len(), 5);
    for i in 1..grid.cols.len() {
        assert!(grid.cols[i - 1] < grid.cols[i]);
    }
}

#[test]
fn every_reserved_width_between_distinct_columns_holds() {
    let d = build(vec![
        participant("A"),
        participant("B"),
        participant("C"),
        message("A", "C", "a rather long message label"),
        message("B", "B", "loop"),
        Statement::Note { label: "a note\nwith two lines".to_string(), direction: Direction::Right },
        Statement::Separator("section".to_string()),
    ])
    .unwrap();
    let grid = calculate_grid(&d).unwrap();
    let rws = collect_reserved_widths(&d);
    assert!(!rws.is_empty());
    for rw in rws {
        if rw.left_col < rw.right_col {
            assert!((grid.cols[rw.right_col] - grid.cols[rw.left_col]) as u128 >= rw.width);
        }
    }
}

#[test]
fn row_heights_are_largest_event_plus_margin() {
    let d = build(vec![
        Statement::ParticipantDefinition { name: "A".to_string(), label: "A".to_string(), kind: ParticipantKind::Actor },
        participant("B"),
        message("A", "B", ""),
        message("A", "A", "x"),
        Statement::Note { label: "n".to_string(), direction: Direction::Left },
    ])
    .unwrap();
    let grid = calculate_grid(&d).unwrap();
    // row 0: actor 64, plain 32; row 1: unlabelled arrow 20; row 2: self message 55, note 17
    assert_eq!(grid.row_bounds, vec![20, 84, 104, 124, 144, 199, 219, 283, 303]);
    for i in 1..grid.row_bounds.len() {
        assert!(grid.row_bounds[i - 1] < grid.row_bounds[i]);
    }
}

#[test]
fn nested_activations_close_in_stack_order() {
    let mut p = Participant::new("A".to_string(), ParticipantKind::Default, ParticipantConfig { font_size: 16 });
    p.activate(Some(1));
    p.activate(Some(2));
    assert_eq!(p.activations[0].nesting, 0);
    assert_eq!(p.activations[1].nesting, 1);
    assert!(p.deactivate(3));
    assert_eq!(p.activations[0], Activation { start: Some(1), end: None, nesting: 0 });
    assert_eq!(p.activations[1], Activation { start: Some(2), end: Some(3), nesting: 1 });
    assert!(p.deactivate(4));
    assert_eq!(p.activations[0], Activation { start: Some(1), end: Some(4), nesting: 0 });
    assert!(!p.deactivate(5));
    assert_eq!(p.count_activations_at(2), 2);
    assert_eq!(p.count_activations_at(4), 1);
    assert_eq!(p.count_activations_at(0), 0);
    assert_eq!(p.lifeline_offset(2), (-5, 8));
    assert_eq!(p.lifeline_offset(4), (-5, 5));
    assert_eq!(p.lifeline_offset(9), (0, 0));
}

#[test]
fn deactivate_without_open_activation_fails() {
    let r = build(vec![participant("A"), Statement::Deactivate("A".to_string()), message("A", "A", "")]);
    assert_eq!(r.err(), Some(Error::NoOpenActivation("A".to_string())));
    let r = build(vec![
        participant("A"),
        Statement::Message {
            from: "A".to_string(),
            to: "B".to_string(),
            label: String::new(),
            style: LineStyle::Plain,
            activation_modifier: Some(ActivationModifier::Deactivate),
        },
    ]);
    assert_eq!(r.err(), Some(Error::NoOpenActivation("A".to_string())));
    let r = build(vec![Statement::Deactivate("Q".to_string())]);
    assert_eq!(r.err(), Some(Error::UnknownParticipant("Q".to_string())));
    let mut d = SequenceDiagram::new(Config::default());
    d.add_message("A", "B", "m".to_string(), LineStyle::Plain);
    assert_eq!(d.deactivate("A"), Err(Error::NoOpenActivation("A".to_string())));
    assert_eq!(d.deactivate("Z"), Err(Error::UnknownParticipant("Z".to_string())));
    d.activate("A", Some(1));
    assert_eq!(d.deactivate("A"), Ok(()));
    assert_eq!(d.get_participants()[0].activations[0].end, Some(1));
}

#[test]
fn group_errors() {
    let r = build(vec![participant("A"), Statement::AltElse("else".to_string())]);
    assert_eq!(r.err(), Some(Error::CaseWithoutGroup));
    let r = build(vec![Statement::GroupStart(GroupKind::Simple, "g".to_string()), Statement::AltElse("x".to_string())]);
    assert_eq!(r.err(), Some(Error::CaseOutsideAlt));
    let r = build(vec![Statement::GroupEnd]);
    assert_eq!(r.err(), Some(Error::EndWithoutGroup));
    let r = build(vec![Statement::GroupStart(GroupKind::Alt, "cond".to_string()), message("A", "B", "")]);
    assert_eq!(r.err(), Some(Error::UnclosedGroup));
    let r = build(vec![
        Statement::GroupStart(GroupKind::Alt, "cond".to_string()),
        message("A", "B", ""),
        Statement::AltElse("other".to_string()),
        message("B", "A", ""),
        Statement::GroupEnd,
    ]);
    let d = r.unwrap();
    match &d.get_groups()[0] {
        Group::AltGroup(g) => {
            assert_eq!(g.get_simple_group().get_start(), 1);
            assert_eq!(g.get_simple_group().get_end(), 5);
            assert_eq!(g.get_simple_group().get_label(), "alt");
            assert_eq!(g.get_simple_group().get_header(), "cond");
            assert_eq!(g.get_cases().len(), 1);
            assert_eq!(g.get_cases()[0].row, 3);
            assert_eq!(g.get_cases()[0].label, "other");
        }
        Group::SimpleGroup(_) => panic!("expected an alt group"),
    }
}

#[test]
fn note_errors() {
    let r = build(vec![participant("A"), Statement::Note { label: "n".to_string(), direction: Direction::Left }]);
    assert_eq!(r.err(), Some(Error::NoteBeforeMessage));
    let r = build(vec![
        participant("A"),
        Statement::Note { label: "n".to_string(), direction: Direction::Over(vec!["A".to_string(), "Q".to_string()]) },
    ]);
    assert_eq!(r.err(), Some(Error::UnknownNoteParticipant("Q".to_string())));
}

#[test]
fn error_messages() {
    assert_eq!(Error::EndWithoutGroup.message(), "Found end without active group");
    assert_eq!(Error::UnclosedGroup.message(), "Group with no closing end keyword");
    let e = Error::NoOpenActivation("A".to_string());
    assert_eq!(e.message(), "Attempting to deactivate participant with no activation");
    assert_eq!(e.participant(), Some(&"A".to_string()));
    assert_eq!(Error::CaseOutsideAlt.participant(), None);
}

#[test]
fn self_message_reserves_against_next_column() {
    let m = MessageSent {
        message: Message { from: 1, to: 1, label: "ab".to_string(), style: LineStyle::Dashed },
    };
    assert_eq!(m.reserved_width(), Some(ReservedWidth { left_col: 2, right_col: 3, width: 70 }));
    assert_eq!(m.height(), 55);
    assert_eq!(m.col_range(), Some((1, 1)));
    let back = MessageSent {
        message: Message { from: 2, to: 0, label: String::new(), style: LineStyle::Plain },
    };
    assert_eq!(back.reserved_width(), Some(ReservedWidth { left_col: 1, right_col: 3, width: 40 }));
    assert_eq!(back.height(), 20);
    assert_eq!(back.col_range(), Some((0, 2)));
}

#[test]
fn self_message_leaves_other_gaps_alone() {
    let base = build(vec![participant("A"), participant("B"), participant("C")]).unwrap();
    let with_self = build(vec![participant("A"), participant("B"), participant("C"), message("A", "A", "a fairly long loop label")]).unwrap();
    let g1 = calculate_grid(&base).unwrap();
    let g2 = calculate_grid(&with_self).unwrap();
    assert_eq!(g1.cols[1] - g1.cols[0], g2.cols[1] - g2.cols[0]);
    assert!(g2.cols[2] - g2.cols[1] > g1.cols[2] - g1.cols[1]);
    assert_eq!(g1.cols[3] - g1.cols[2], g2.cols[3] - g2.cols[2]);
    assert_eq!(g1.cols[4] - g1.cols[3], g2.cols[4] - g2.cols[3]);
}

#[test]
fn columns_follow_creation_order() {
    let d = build(vec![
        participant("A"),
        participant("B"),
        participant("C"),
        message("A", "B", ""),
        message("B", "C", ""),
        message("C", "A", ""),
    ])
    .unwrap();
    let names: Vec<&str> = d.get_participants().iter().map(|p| p.name.as_str()).collect();
    assert_eq!(names, vec!["A", "B", "C"]);
    for (i, p) in d.get_participants().iter().enumerate() {
        assert_eq!(p.get_idx(), i);
    }
    assert_eq!(d.find_participant_by_name("C"), Some(2));
    let grid = calculate_grid(&d).unwrap();
    assert!(grid.get_col_center(0) < grid.get_col_center(1));
    assert!(grid.get_col_center(1) < grid.get_col_center(2));
}

#[test]
fn group_box_covers_gap_columns() {
    let d = build(vec![
        participant("A"),
        participant("B"),
        participant("C"),
        message("A", "B", ""),
        Statement::GroupStart(GroupKind::Simple, "g".to_string()),
        message("A", "C", ""),
        Statement::Separator("s".to_string()),
        Statement::GroupEnd,
    ])
    .unwrap();
    match &d.get_groups()[0] {
        Group::SimpleGroup(g) => {
            assert_eq!(g.get_start(), 2);
            assert_eq!(g.get_end(), 5);
            assert_eq!(group_col_range(g, &d), Some((0, 2)));
            let grid = calculate_grid(&d).unwrap();
            assert_eq!(
                seq_rs::group::calculate_x_pos(g, &d, &grid),
                Some((grid.cols[1], grid.cols[3]))
            );
        }
        Group::AltGroup(_) => panic!("expected a simple group"),
    }
}

#[test]
fn replaying_gives_identical_geometry() {
    let stmts = || {
        vec![
            participant("A"),
            message("A", "B", "x"),
            Statement::Message {
                from: "B".to_string(),
                to: "A".to_string(),
                label: "y".to_string(),
                style: LineStyle::Dashed,
                activation_modifier: Some(ActivationModifier::Activate),
            },
            Statement::Note { label: "over".to_string(), direction: Direction::Over(vec!["A".to_string(), "B".to_string()]) },
        ]
    };
    let g1 = calculate_grid(&build(stmts()).unwrap()).unwrap();
    let g2 = calculate_grid(&build(stmts()).unwrap()).unwrap();
    assert_eq!(g1.cols, g2.cols);
    assert_eq!(g1.row_bounds, g2.row_bounds);
}

#[test]
fn resolution_order_is_span_then_left_column() {
    let rws = vec![
        ReservedWidth::new(3, 0, 5),
        ReservedWidth::new(1, 2, 7),
        ReservedWidth::new(0, 1, 9),
    ];
    let sorted = sorted_for_resolution(&rws);
    assert_eq!(
        sorted,
        vec![
            ReservedWidth { left_col: 0, right_col: 1, width: 9 },
            ReservedWidth { left_col: 1, right_col: 2, width: 7 },
            ReservedWidth { left_col: 0, right_col: 3, width: 5 },
        ]
    );
    assert_eq!(sorted[2].col_distance(), 3);
}

#[test]
fn note_and_separator_metrics() {
    let note = Note {
        orientation: NoteOrientation::LeftOf(0),
        label: "ab\ncde".to_string(),
        config: NoteConfig { font_size: 12 },
    };
    assert_eq!(note.width(), 23);
    assert_eq!(note.height(), 30);
    let sep = Separator::new("abc".to_string(), SeparatorConfig { font_size: 12 });
    assert_eq!(sep.width(), 27);
    assert_eq!(sep.height(), 14);
    let d = build(vec![participant("A"), message("A", "A", "")]).unwrap();
    let events = &d.get_timeline()[1];
    assert!(matches!(events[0], TimelineEvent::MessageSent(_)));
    assert_eq!(note.reserved_width(&d), Some(ReservedWidth { left_col: 0, right_col: 1, width: 43 }));
    assert_eq!(sep.reserved_width(&d), Some(ReservedWidth { left_col: 0, right_col: 2, width: 37 }));
}

#[test]
fn activation_modifiers_on_messages() {
    let d = build(vec![
        participant("A"),
        participant("B"),
        Statement::Message {
            from: "A".to_string(),
            to: "B".to_string(),
            label: "call".to_string(),
            style: LineStyle::Plain,
            activation_modifier: Some(ActivationModifier::Activate),
        },
        Statement::Message {
            from: "B".to_string(),
            to: "A".to_string(),
            label: "return".to_string(),
            style: LineStyle::Dashed,
            activation_modifier: Some(ActivationModifier::Deactivate),
        },
    ])
    .unwrap();
    let b = &d.get_participants()[1];
    assert_eq!(b.activations.len(), 1);
    assert_eq!(b.activations[0], Activation { start: Some(1), end: Some(2), nesting: 0 });
}

#[test]
fn empty_diagram_has_one_column_boundary() {
    let d = SequenceDiagram::new(Config::default());
    let grid = calculate_grid(&d).unwrap();
    assert_eq!(grid.cols, vec![0]);
    assert_eq!(grid.row_bounds, vec![20, 20, 40, 40, 60]);
    let mut d = SequenceDiagram::new(Config::default());
    d.add_separator("abc".to_string());
    assert_eq!(d.rightmost_col(), 0);
    let grid = calculate_grid(&d).unwrap();
    assert_eq!(grid.cols, vec![37]);
}

#[test]
fn layout_too_large_for_coordinates() {
    let mut d = SequenceDiagram::new(Config::default());
    let big = ParticipantConfig { font_size: 4_000_000_000 };
    d.add_participant(Participant::with_label("p".to_string(), ParticipantKind::Default, "AB".to_string(), big));
    assert!(calculate_grid(&d).is_none());
}

#[test]
fn participants_get_consecutive_columns() {
    let mut d = SequenceDiagram::new(Config::default());
    let cfg = ParticipantConfig { font_size: 16 };
    assert_eq!(d.add_participant(Participant::new("x".to_string(), ParticipantKind::Actor, cfg)), 0);
    assert_eq!(d.add_participant(Participant::new("y".to_string(), ParticipantKind::Database, cfg)), 1);
    let m = d.add_message("y", "z", "go".to_string(), LineStyle::Dashed);
    assert_eq!((m.from, m.to), (1, 2));
    assert_eq!(d.get_participants()[2].get_idx(), 2);
    assert_eq!(d.get_participants()[2].get_label(), "z");
    assert_eq!(*d.get_participants()[2].get_kind(), ParticipantKind::Default);
    assert_eq!(d.get_timeline()[0].len(), 3);
    assert_eq!(d.get_timeline().len(), 2);
    assert_eq!(d.get_config().participant_config.font_size, 16);
}

#[test]
fn wider_constraints_are_resolved_after_a_self_message() {
    let sep = Statement::Separator("a separator label of exactly forty chars".to_string());
    let base = build(vec![participant("A"), participant("B"), sep.clone()]).unwrap();
    let with_self = build(vec![
        participant("A"),
        participant("B"),
        sep,
        message("A", "A", "a loop label thirty characters"),
    ])
    .unwrap();
    // the separator pads the last gap; once the self message has widened its own gap,
    // the separator is already met and pads nothing
    assert_eq!(calculate_grid(&base).unwrap().cols, vec![0, 120, 280, 379]);
    assert_eq!(calculate_grid(&with_self).unwrap().cols, vec![0, 120, 622, 662]);
}
