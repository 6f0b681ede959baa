use last_stop::bus_puzzle::components::ConnectionDirection;
use last_stop::bus_puzzle::localization::Language;
use last_stop::bus_puzzle::ui_audio::{parse_language_code, toggle_language};
use last_stop::bus_puzzle::{rotate_offset, GridPos, RouteSegmentType};

const ALL: [RouteSegmentType; 6] = [
    RouteSegmentType::Straight,
    RouteSegmentType::Curve,
    RouteSegmentType::TSplit,
    RouteSegmentType::Cross,
    RouteSegmentType::Bridge,
    RouteSegmentType::Tunnel,
];

#[test]
fn turning_keeps_the_number_of_ports() {
    for t in ALL {
        let base = t.get_base_connection_offsets().len();
        for r in [0, 90, 180, 270, 360, 450] {
            assert_eq!(t.get_connection_offsets(r).len(), base);
        }
    }
}

#[test]
fn a_full_turn_changes_nothing() {
    for t in ALL {
        for r in [0, 90, 180, 270] {
            assert_eq!(t.get_connection_offsets(r + 360), t.get_connection_offsets(r));
        }
    }
}

#[test]
fn straight_pieces_survive_a_half_turn() {
    for t in [RouteSegmentType::Straight, RouteSegmentType::Bridge, RouteSegmentType::Tunnel] {
        for r in [0, 90] {
            assert_eq!(t.get_connection_offsets(r + 180), t.get_connection_offsets(r));
        }
    }
}

#[test]
fn quarter_turns_compose() {
    for (dx, dy) in [(0, -1), (1, 0), (2, 3)] {
        let (a, b) = rotate_offset(dx, dy, 90);
        assert_eq!(rotate_offset(a, b, 180), rotate_offset(dx, dy, 270));
        assert_eq!(rotate_offset(dx, dy, 360), (dx, dy));
    }
    assert_eq!(rotate_offset(0, -1, 90), (1, 0));
}

#[test]
fn cross_reaches_every_neighbour() {
    for r in [0, 90, 180, 270] {
        let offs = RouteSegmentType::Cross.get_connection_offsets(r);
        for o in [(0, -1), (0, 1), (1, 0), (-1, 0)] {
            assert!(offs.contains(&o));
        }
    }
}

#[test]
fn directions_and_offsets_round_trip() {
    for d in [ConnectionDirection::North, ConnectionDirection::South, ConnectionDirection::East, ConnectionDirection::West] {
        let (dx, dy) = d.to_offset();
        assert_eq!(ConnectionDirection::from_offset(dx, dy), Some(d));
        assert_eq!(d.opposite().opposite(), d);
    }
    assert_eq!(ConnectionDirection::from_offset(1, 1), None);
}

#[test]
fn segment_costs_and_textures() {
    assert_eq!(RouteSegmentType::Straight.get_cost(), 1);
    assert_eq!(RouteSegmentType::Tunnel.get_cost(), 6);
    assert_eq!(RouteSegmentType::TSplit.get_texture_path(), "textures/routes/t_split.png");
    assert_eq!(RouteSegmentType::Curve.get_connection_positions(GridPos::new(2, 2), 0), vec![GridPos::new(1, 2), GridPos::new(2, 1)]);
}

#[test]
fn saved_languages_read_back() {
    for l in [Language::English, Language::Chinese] {
        assert_eq!(parse_language_code(l.code()), Some(l));
        assert_eq!(toggle_language(toggle_language(l)), l);
    }
}

#[test]
fn a_quarter_turn_turns_every_port() {
    for t in ALL {
        for r in [0u32, 90, 180, 270, 360] {
            let mut turned: Vec<(i32, i32)> =
                t.get_connection_offsets(r).into_iter().map(|(dx, dy)| rotate_offset(dx, dy, 90)).collect();
            let mut next = t.get_connection_offsets(r + 90);
            turned.sort();
            next.sort();
            assert_eq!(turned, next);
        }
    }
    assert_eq!(RouteSegmentType::Curve.get_connection_offsets(90), vec![(0, -1), (1, 0)]);
}
