use convlog::mjai::{Consumed2, Consumed3, Consumed4, Event};
use convlog::pai::Pai;

fn all() -> Vec<Event> {
    vec![
        Event::StartGame {
            kyoku_first: 4,
            aka_flag: true,
            names: ["a".to_owned(), "b".to_owned(), "c".to_owned(), "d".to_owned()],
        },
        Event::StartKyoku {
            bakaze: Pai::South,
            dora_marker: Pai::Man1,
            kyoku: 3,
            honba: 2,
            kyotaku: 1,
            oya: 2,
            scores: [1, 2, 3, 4],
            tehais: [[Pai::Man1; 13], [Pai::Man2; 13], [Pai::Man3; 13], [Pai::Man4; 13]],
        },
        Event::Tsumo { actor: 1, pai: Pai::Pin1 },
        Event::Dahai { actor: 1, pai: Pai::Pin1, tsumogiri: false },
        Event::Dahai { actor: 1, pai: Pai::Unknown, tsumogiri: true },
        Event::Chi { actor: 1, target: 0, pai: Pai::Pin1, consumed: Consumed2([Pai::Pin2, Pai::Pin3]) },
        Event::Pon { actor: 2, target: 0, pai: Pai::Pin1, consumed: Consumed2([Pai::Pin1, Pai::Pin1]) },
        Event::Daiminkan {
            actor: 3,
            target: 0,
            pai: Pai::Pin1,
            consumed: Consumed3([Pai::Pin1, Pai::Pin1, Pai::Pin1]),
        },
        Event::Kakan { actor: 3, pai: Pai::Pin1, consumed: Consumed3([Pai::Pin1, Pai::Pin1, Pai::Pin1]) },
        Event::Ankan {
            actor: 3,
            consumed: Consumed4([Pai::Pin1, Pai::Pin1, Pai::Pin1, Pai::Pin1]),
        },
        Event::Dora { dora_marker: Pai::Chun },
        Event::Reach { actor: 0 },
        Event::ReachAccepted { actor: 0 },
        Event::Hora { actor: 0, target: 1, deltas: Some([1, -1, 0, 0]) },
        Event::Ryukyoku { deltas: None },
        Event::EndKyoku,
        Event::EndGame,
    ]
}

#[test]
fn a_copy_of_an_event_is_the_event() {
    for event in all() {
        assert_eq!(event.clone(), event);
    }
}

#[test]
fn only_calls_of_a_discard_name_a_seat_and_a_tile() {
    for event in all() {
        let info = event.naki_info();
        let rank = event.naki_to_ord();
        match event {
            Event::Chi { target, pai, .. } => {
                assert_eq!(info, Some((target, pai)));
                assert_eq!(rank, 0);
            }
            Event::Pon { target, pai, .. } | Event::Daiminkan { target, pai, .. } => {
                assert_eq!(info, Some((target, pai)));
                assert_eq!(rank, 1);
            }
            _ => {
                assert_eq!(info, None);
                assert_eq!(rank, -1);
            }
        }
    }
}

#[test]
fn only_a_discard_of_the_drawn_tile_is_filled_in() {
    for event in all() {
        let filled = event.clone().fill_possible_tsumogiri(Pai::East);
        match event {
            Event::Dahai { actor, tsumogiri: true, .. } => {
                assert_eq!(filled, Event::Dahai { actor, pai: Pai::East, tsumogiri: true })
            }
            other => assert_eq!(filled, other),
        }
    }
    assert_eq!(
        Event::Dahai { actor: 2, pai: Pai::Man1, tsumogiri: true }
            .fill_possible_tsumogiri(Pai::Man2),
        Event::Dahai { actor: 2, pai: Pai::Man2, tsumogiri: true }
    );
    assert_eq!(
        Event::Dahai { actor: 2, pai: Pai::Man1, tsumogiri: false }
            .fill_possible_tsumogiri(Pai::Man2),
        Event::Dahai { actor: 2, pai: Pai::Man1, tsumogiri: false }
    );
}
