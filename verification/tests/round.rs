use convlog::conv::{tenhou_kyoku_to_mjai_events, tenhou_to_mjai, ConvertError};
use convlog::mjai::{Consumed2, Consumed3, Consumed4, Event};
use convlog::pai::Pai;
use convlog::round::{merge, next_actor};
use convlog::tenhou::{
    ActionItem, ActionTable, EndStatus, GameLength, HoraDetail, Kyoku, Log, Meta,
};

const SCORES: [i32; 4] = [25000, 24000, 26000, 25000];

fn hand(first: Pai) -> [Pai; 13] {
    let mut tiles = [Pai::Chun; 13];
    tiles[0] = first;
    tiles
}

fn seat(seat: u8, takes: Vec<ActionItem>, discards: Vec<ActionItem>) -> ActionTable {
    let first = [Pai::Man1, Pai::Pin1, Pai::Sou1, Pai::East][seat as usize];
    ActionTable { haipai: hand(first), takes, discards }
}

fn draw_end() -> EndStatus {
    EndStatus::Ryukyoku { score_deltas: [1500, -1500, 1500, -1500] }
}

fn draw_events() -> Vec<Event> {
    vec![Event::Ryukyoku { deltas: Some([1500, -1500, 1500, -1500]) }, Event::EndKyoku]
}

fn round(num: u8, doras: Vec<Pai>, seats: [ActionTable; 4], end: EndStatus) -> Kyoku {
    Kyoku {
        meta: Meta { kyoku_num: num, honba: 1, kyotaku: 2 },
        scoreboard: SCORES,
        dora_indicators: doras,
        action_tables: seats,
        end_status: end,
    }
}

fn opening(num: u8, wind: Pai, dora: Pai) -> Event {
    Event::StartKyoku {
        bakaze: wind,
        dora_marker: dora,
        kyoku: num % 4 + 1,
        honba: 1,
        kyotaku: 2,
        oya: num % 4,
        scores: SCORES,
        tehais: [hand(Pai::Man1), hand(Pai::Pin1), hand(Pai::Sou1), hand(Pai::East)],
    }
}

fn tile(pai: Pai) -> ActionItem {
    ActionItem::Pai(pai)
}

fn same() -> ActionItem {
    ActionItem::Tsumogiri(60)
}

fn naki(text: &str) -> ActionItem {
    ActionItem::Naki(text.to_owned())
}

fn tsumo(actor: u8, pai: Pai) -> Event {
    Event::Tsumo { actor, pai }
}

fn dahai(actor: u8, pai: Pai) -> Event {
    Event::Dahai { actor, pai, tsumogiri: false }
}

fn tsumogiri(actor: u8, pai: Pai) -> Event {
    Event::Dahai { actor, pai, tsumogiri: true }
}

fn dora(pai: Pai) -> Event {
    Event::Dora { dora_marker: pai }
}

fn convert(kyoku: &Kyoku) -> Result<Vec<Event>, ConvertError> {
    let mut events = vec![];
    tenhou_kyoku_to_mjai_events(&mut events, kyoku).map(|()| events)
}

fn with_end(mut events: Vec<Event>, end: Vec<Event>) -> Vec<Event> {
    events.extend(end);
    events
}

fn plain_round() -> Kyoku {
    round(
        5,
        vec![Pai::Haku],
        [
            seat(0, vec![tile(Pai::East)], vec![tile(Pai::South)]),
            seat(1, vec![tile(Pai::Man1), tile(Pai::Man2)], vec![tile(Pai::Man3)]),
            seat(2, vec![tile(Pai::Pin1)], vec![same()]),
            seat(3, vec![tile(Pai::Sou1)], vec![tile(Pai::Sou2)]),
        ],
        EndStatus::Hora {
            details: vec![HoraDetail {
                who: 1,
                target: 1,
                score_deltas: [-1000, 5000, -1000, -1000],
            }],
        },
    )
}

fn plain_round_events() -> Vec<Event> {
    vec![
        opening(5, Pai::South, Pai::Haku),
        tsumo(1, Pai::Man1),
        dahai(1, Pai::Man3),
        tsumo(2, Pai::Pin1),
        tsumogiri(2, Pai::Pin1),
        tsumo(3, Pai::Sou1),
        dahai(3, Pai::Sou2),
        tsumo(0, Pai::East),
        dahai(0, Pai::South),
        tsumo(1, Pai::Man2),
        Event::Hora { actor: 1, target: 1, deltas: Some([-1000, 5000, -1000, -1000]) },
        Event::EndKyoku,
    ]
}

#[test]
fn a_plain_round_goes_round_the_table_from_the_dealer() {
    assert_eq!(convert(&plain_round()), Ok(plain_round_events()));
}

#[test]
fn the_round_wind_follows_the_round_number() {
    for (num, wind) in [
        (0, Pai::East),
        (3, Pai::East),
        (4, Pai::South),
        (7, Pai::South),
        (8, Pai::West),
        (11, Pai::West),
        (12, Pai::North),
        (15, Pai::North),
        (16, Pai::North),
        (255, Pai::North),
    ] {
        let mut seats = [
            seat(0, vec![], vec![]),
            seat(1, vec![], vec![]),
            seat(2, vec![], vec![]),
            seat(3, vec![], vec![]),
        ];
        seats[(num % 4) as usize].takes.push(tile(Pai::Man9));
        let kyoku = round(num, vec![Pai::Chun], seats, draw_end());
        assert_eq!(
            convert(&kyoku),
            Ok(with_end(
                vec![opening(num, wind, Pai::Chun), tsumo(num % 4, Pai::Man9)],
                draw_events()
            ))
        );
    }
}

#[test]
fn a_round_ends_after_a_discard_when_no_seat_has_a_take_left() {
    let kyoku = round(
        0,
        vec![Pai::Haku],
        [
            seat(0, vec![tile(Pai::Man1)], vec![tile(Pai::Man2)]),
            seat(1, vec![], vec![]),
            seat(2, vec![], vec![]),
            seat(3, vec![], vec![]),
        ],
        EndStatus::Hora {
            details: vec![
                HoraDetail { who: 1, target: 0, score_deltas: [-8000, 8000, 0, 0] },
                HoraDetail { who: 3, target: 0, score_deltas: [-1000, 0, 0, 1000] },
            ],
        },
    );
    assert_eq!(
        convert(&kyoku),
        Ok(vec![
            opening(0, Pai::East, Pai::Haku),
            tsumo(0, Pai::Man1),
            dahai(0, Pai::Man2),
            Event::Hora { actor: 1, target: 0, deltas: Some([-8000, 8000, 0, 0]) },
            Event::Hora { actor: 3, target: 0, deltas: Some([-1000, 0, 0, 1000]) },
            Event::EndKyoku,
        ])
    );
}

#[test]
fn converted_events_are_appended_to_what_is_there() {
    let mut events = vec![Event::EndGame, Event::EndKyoku];
    assert_eq!(tenhou_kyoku_to_mjai_events(&mut events, &plain_round()), Ok(()));
    assert_eq!(events, with_end(vec![Event::EndGame, Event::EndKyoku], plain_round_events()));
}

#[test]
fn a_pon_goes_before_a_chi_of_the_same_discard() {
    let kyoku = round(
        0,
        vec![Pai::Haku],
        [
            seat(0, vec![tile(Pai::Man1)], vec![tile(Pai::Pin5)]),
            seat(1, vec![naki("c252627")], vec![tile(Pai::Man9)]),
            seat(2, vec![naki("25p2525")], vec![tile(Pai::Sou9)]),
            seat(3, vec![tile(Pai::East)], vec![]),
        ],
        draw_end(),
    );
    assert_eq!(
        convert(&kyoku),
        Ok(with_end(
            vec![
                opening(0, Pai::East, Pai::Haku),
                tsumo(0, Pai::Man1),
                dahai(0, Pai::Pin5),
                Event::Pon {
                    actor: 2,
                    target: 0,
                    pai: Pai::Pin5,
                    consumed: Consumed2([Pai::Pin5, Pai::Pin5]),
                },
                dahai(2, Pai::Sou9),
                tsumo(3, Pai::East),
            ],
            draw_events()
        ))
    );
}

#[test]
fn a_chi_is_taken_when_nothing_goes_before_it() {
    let kyoku = round(
        0,
        vec![Pai::Haku],
        [
            seat(0, vec![tile(Pai::Man1)], vec![tile(Pai::Pin5)]),
            seat(1, vec![naki("c252627")], vec![tile(Pai::Man9)]),
            seat(2, vec![naki("26p2626")], vec![tile(Pai::Sou9)]),
            seat(3, vec![], vec![]),
        ],
        draw_end(),
    );
    // the pon of the seat across waits for another tile, so the chi is next;
    // after it the turn passes to the seat across, whose pon calls nothing
    // that was discarded, and is emitted as its take all the same
    assert_eq!(
        convert(&kyoku),
        Ok(with_end(
            vec![
                opening(0, Pai::East, Pai::Haku),
                tsumo(0, Pai::Man1),
                dahai(0, Pai::Pin5),
                Event::Chi {
                    actor: 1,
                    target: 0,
                    pai: Pai::Pin5,
                    consumed: Consumed2([Pai::Pin6, Pai::Pin7]),
                },
                dahai(1, Pai::Man9),
                Event::Pon {
                    actor: 2,
                    target: 0,
                    pai: Pai::Pin6,
                    consumed: Consumed2([Pai::Pin6, Pai::Pin6]),
                },
                dahai(2, Pai::Sou9),
            ],
            draw_events()
        ))
    );
}

fn pon(actor: u8, target: u8, pai: Pai) -> Event {
    Event::Pon { actor, target, pai, consumed: Consumed2([pai, pai]) }
}

fn chi(actor: u8, target: u8, pai: Pai) -> Event {
    Event::Chi { actor, target, pai, consumed: Consumed2([Pai::Pin4, Pai::Pin6]) }
}

fn kan(actor: u8, target: u8, pai: Pai) -> Event {
    Event::Daiminkan { actor, target, pai, consumed: Consumed3([pai, pai, pai]) }
}

#[test]
fn the_next_seat_is_the_one_whose_pon_calls_the_discard() {
    // seat 0 has discarded 5p; seat 1 waits with a pon of it, seat 3 with a chi
    let takes = [vec![], vec![pon(1, 0, Pai::Pin5)], vec![], vec![chi(3, 0, Pai::Pin5)]];
    assert_eq!(next_actor(&takes, &[0, 0, 0, 0], 0, Pai::Pin5), 1);
    // the other way round
    let takes = [vec![], vec![chi(1, 0, Pai::Pin5)], vec![], vec![pon(3, 0, Pai::Pin5)]];
    assert_eq!(next_actor(&takes, &[0, 0, 0, 0], 0, Pai::Pin5), 3);
    // a called kan goes before a chi too
    let takes = [vec![], vec![kan(1, 0, Pai::Pin5)], vec![chi(2, 0, Pai::Pin5)], vec![]];
    assert_eq!(next_actor(&takes, &[0, 0, 0, 0], 0, Pai::Pin5), 1);
    let takes = [vec![], vec![chi(1, 0, Pai::Pin5)], vec![kan(2, 0, Pai::Pin5)], vec![]];
    assert_eq!(next_actor(&takes, &[0, 0, 0, 0], 0, Pai::Pin5), 2);
}

#[test]
fn the_next_seat_is_the_seat_after_when_nothing_calls_the_discard() {
    let none: [Vec<Event>; 4] = [vec![], vec![], vec![], vec![]];
    assert_eq!(next_actor(&none, &[0, 0, 0, 0], 0, Pai::Pin5), 1);
    assert_eq!(next_actor(&none, &[0, 0, 0, 0], 3, Pai::Pin5), 0);
    // a call of another tile, of another seat, by the seat itself, or one
    // that was read already, calls nothing
    let takes = [
        vec![pon(0, 0, Pai::Pin5)],
        vec![pon(1, 0, Pai::Pin6)],
        vec![pon(2, 1, Pai::Pin5)],
        vec![pon(3, 0, Pai::Pin5), tsumo(3, Pai::Man1)],
    ];
    assert_eq!(next_actor(&takes, &[0, 0, 0, 1], 0, Pai::Pin5), 1);
    assert_eq!(next_actor(&takes, &[0, 0, 0, 0], 0, Pai::Pin5), 3);
    assert_eq!(next_actor(&takes, &[0, 0, 0, 2], 0, Pai::Pin5), 1);
    // a draw calls nothing
    let takes = [vec![], vec![], vec![tsumo(2, Pai::Pin5)], vec![]];
    assert_eq!(next_actor(&takes, &[0, 0, 0, 0], 1, Pai::Pin5), 2);
    assert_eq!(next_actor(&takes, &[0, 0, 0, 0], 0, Pai::Pin5), 1);
}

#[test]
fn of_two_calls_of_one_rank_the_later_seat_is_next() {
    let takes = [vec![], vec![pon(1, 0, Pai::Pin5)], vec![kan(2, 0, Pai::Pin5)], vec![]];
    assert_eq!(next_actor(&takes, &[0, 0, 0, 0], 0, Pai::Pin5), 2);
    let takes = [vec![], vec![chi(1, 0, Pai::Pin5)], vec![], vec![chi(3, 0, Pai::Pin5)]];
    assert_eq!(next_actor(&takes, &[0, 0, 0, 0], 0, Pai::Pin5), 3);
}

#[test]
fn merged_events_follow_the_calls() {
    let kyoku = round(
        0,
        vec![Pai::Haku],
        [
            seat(0, vec![], vec![]),
            seat(1, vec![], vec![]),
            seat(2, vec![], vec![]),
            seat(3, vec![], vec![]),
        ],
        draw_end(),
    );
    let takes = [
        vec![tsumo(0, Pai::Man1)],
        vec![pon(1, 0, Pai::Pin5)],
        vec![tsumo(2, Pai::East)],
        vec![chi(3, 0, Pai::Pin5)],
    ];
    let discards =
        [vec![dahai(0, Pai::Pin5)], vec![dahai(1, Pai::Man9)], vec![], vec![dahai(3, Pai::Sou1)]];
    let mut events = vec![];
    assert_eq!(merge(&mut events, &kyoku, &takes, &discards), Ok(()));
    assert_eq!(
        events,
        with_end(
            vec![
                opening(0, Pai::East, Pai::Haku),
                tsumo(0, Pai::Man1),
                dahai(0, Pai::Pin5),
                pon(1, 0, Pai::Pin5),
                dahai(1, Pai::Man9),
                tsumo(2, Pai::East),
            ],
            draw_events()
        )
    );
}

#[test]
fn a_concealed_kan_reveals_at_once() {
    let kyoku = round(
        0,
        vec![Pai::Haku, Pai::Hatsu],
        [
            seat(0, vec![tile(Pai::South), tile(Pai::Man1)], vec![naki("424242a42"), same()]),
            seat(1, vec![], vec![]),
            seat(2, vec![], vec![]),
            seat(3, vec![], vec![]),
        ],
        draw_end(),
    );
    assert_eq!(
        convert(&kyoku),
        Ok(with_end(
            vec![
                opening(0, Pai::East, Pai::Haku),
                tsumo(0, Pai::South),
                Event::Ankan {
                    actor: 0,
                    consumed: Consumed4([Pai::South, Pai::South, Pai::South, Pai::South]),
                },
                dora(Pai::Hatsu),
                tsumo(0, Pai::Man1),
                tsumogiri(0, Pai::Man1),
            ],
            draw_events()
        ))
    );
}

#[test]
fn a_called_kan_reveals_after_the_next_discard() {
    let kyoku = round(
        0,
        vec![Pai::Haku, Pai::Hatsu],
        [
            seat(0, vec![tile(Pai::Man1)], vec![tile(Pai::Sou9)]),
            seat(
                1,
                vec![naki("m39393939"), tile(Pai::Pin1)],
                vec![tile(Pai::Unknown), tile(Pai::Pin2)],
            ),
            seat(2, vec![], vec![]),
            seat(3, vec![], vec![]),
        ],
        draw_end(),
    );
    assert_eq!(
        convert(&kyoku),
        Ok(with_end(
            vec![
                opening(0, Pai::East, Pai::Haku),
                tsumo(0, Pai::Man1),
                dahai(0, Pai::Sou9),
                kan(1, 0, Pai::Sou9),
                tsumo(1, Pai::Pin1),
                dahai(1, Pai::Pin2),
                dora(Pai::Hatsu),
            ],
            draw_events()
        ))
    );
}

#[test]
fn an_added_kan_reveals_after_the_next_discard() {
    let kyoku = round(
        0,
        vec![Pai::Haku, Pai::Hatsu],
        [
            seat(0, vec![tile(Pai::Man6), tile(Pai::Man7)], vec![naki("k16161616"), same()]),
            seat(1, vec![tile(Pai::Pin1)], vec![]),
            seat(2, vec![], vec![]),
            seat(3, vec![], vec![]),
        ],
        draw_end(),
    );
    assert_eq!(
        convert(&kyoku),
        Ok(with_end(
            vec![
                opening(0, Pai::East, Pai::Haku),
                tsumo(0, Pai::Man6),
                Event::Kakan {
                    actor: 0,
                    pai: Pai::Man6,
                    consumed: Consumed3([Pai::Man6, Pai::Man6, Pai::Man6]),
                },
                tsumo(0, Pai::Man7),
                tsumogiri(0, Pai::Man7),
                dora(Pai::Hatsu),
                tsumo(1, Pai::Pin1),
            ],
            draw_events()
        ))
    );
}

#[test]
fn each_kan_has_its_own_reveal() {
    let kyoku = round(
        2,
        vec![Pai::Haku, Pai::Hatsu, Pai::Chun, Pai::East],
        [
            seat(0, vec![], vec![]),
            seat(1, vec![], vec![]),
            seat(
                2,
                vec![tile(Pai::Man6), tile(Pai::South), tile(Pai::Sou1), tile(Pai::Sou2)],
                vec![naki("k16161616"), naki("424242a42"), naki("3131k3131"), tile(Pai::Sou3)],
            ),
            seat(3, vec![], vec![]),
        ],
        draw_end(),
    );
    assert_eq!(
        convert(&kyoku),
        Ok(with_end(
            vec![
                opening(2, Pai::East, Pai::Haku),
                tsumo(2, Pai::Man6),
                Event::Kakan {
                    actor: 2,
                    pai: Pai::Man6,
                    consumed: Consumed3([Pai::Man6, Pai::Man6, Pai::Man6]),
                },
                tsumo(2, Pai::South),
                Event::Ankan {
                    actor: 2,
                    consumed: Consumed4([Pai::South, Pai::South, Pai::South, Pai::South]),
                },
                dora(Pai::Hatsu),
                dora(Pai::Chun),
                tsumo(2, Pai::Sou1),
                Event::Kakan {
                    actor: 2,
                    pai: Pai::Sou1,
                    consumed: Consumed3([Pai::Sou1, Pai::Sou1, Pai::Sou1]),
                },
                tsumo(2, Pai::Sou2),
                dahai(2, Pai::Sou3),
                dora(Pai::East),
            ],
            draw_events()
        ))
    );
}

#[test]
fn a_reach_is_accepted_with_the_next_take() {
    let kyoku = round(
        3,
        vec![Pai::Haku],
        [
            seat(0, vec![tile(Pai::Pin1)], vec![same()]),
            seat(1, vec![tile(Pai::Pin2)], vec![naki("r27")]),
            seat(2, vec![tile(Pai::Pin3)], vec![]),
            seat(3, vec![tile(Pai::Man1)], vec![naki("r60")]),
        ],
        draw_end(),
    );
    assert_eq!(
        convert(&kyoku),
        Ok(with_end(
            vec![
                opening(3, Pai::East, Pai::Haku),
                tsumo(3, Pai::Man1),
                Event::Reach { actor: 3 },
                tsumogiri(3, Pai::Man1),
                Event::ReachAccepted { actor: 3 },
                tsumo(0, Pai::Pin1),
                tsumogiri(0, Pai::Pin1),
                tsumo(1, Pai::Pin2),
                Event::Reach { actor: 1 },
                dahai(1, Pai::Pin7),
                Event::ReachAccepted { actor: 1 },
                tsumo(2, Pai::Pin3),
            ],
            draw_events()
        ))
    );
}

#[test]
fn a_reach_is_not_accepted_when_the_round_ends_on_its_discard() {
    let kyoku = round(
        0,
        vec![Pai::Haku],
        [
            seat(0, vec![tile(Pai::Man1)], vec![naki("r60")]),
            seat(1, vec![], vec![]),
            seat(2, vec![], vec![]),
            seat(3, vec![], vec![]),
        ],
        draw_end(),
    );
    assert_eq!(
        convert(&kyoku),
        Ok(with_end(
            vec![
                opening(0, Pai::East, Pai::Haku),
                tsumo(0, Pai::Man1),
                Event::Reach { actor: 0 },
                tsumogiri(0, Pai::Man1),
            ],
            draw_events()
        ))
    );
}

#[test]
fn an_owed_reveal_comes_between_a_reach_and_its_discard() {
    let kyoku = round(
        0,
        vec![Pai::Haku, Pai::Hatsu],
        [
            seat(0, vec![tile(Pai::Man1)], vec![tile(Pai::Sou9)]),
            seat(
                1,
                vec![naki("m39393939"), tile(Pai::Pin1)],
                vec![tile(Pai::Unknown), naki("r25")],
            ),
            seat(2, vec![], vec![]),
            seat(3, vec![], vec![]),
        ],
        draw_end(),
    );
    assert_eq!(
        convert(&kyoku),
        Ok(with_end(
            vec![
                opening(0, Pai::East, Pai::Haku),
                tsumo(0, Pai::Man1),
                dahai(0, Pai::Sou9),
                kan(1, 0, Pai::Sou9),
                tsumo(1, Pai::Pin1),
                Event::Reach { actor: 1 },
                dora(Pai::Hatsu),
                dahai(1, Pai::Pin5),
            ],
            draw_events()
        ))
    );
}

#[test]
fn the_drawn_tile_mark_after_a_call_stands_for_the_last_draw() {
    let kyoku = round(
        0,
        vec![Pai::Haku],
        [
            seat(0, vec![tile(Pai::Man1)], vec![tile(Pai::Pin5)]),
            seat(1, vec![naki("c252627")], vec![same()]),
            seat(2, vec![], vec![]),
            seat(3, vec![], vec![]),
        ],
        draw_end(),
    );
    assert_eq!(
        convert(&kyoku),
        Ok(with_end(
            vec![
                opening(0, Pai::East, Pai::Haku),
                tsumo(0, Pai::Man1),
                dahai(0, Pai::Pin5),
                Event::Chi {
                    actor: 1,
                    target: 0,
                    pai: Pai::Pin5,
                    consumed: Consumed2([Pai::Pin6, Pai::Pin7]),
                },
                tsumogiri(1, Pai::Man1),
            ],
            draw_events()
        ))
    );
}

#[test]
fn a_round_without_a_dora_indicator_cannot_open() {
    let mut kyoku = plain_round();
    kyoku.dora_indicators.clear();
    let mut events = vec![Event::EndGame];
    assert_eq!(
        tenhou_kyoku_to_mjai_events(&mut events, &kyoku),
        Err(ConvertError::InsufficientDoraIndicators { kyoku: 5, honba: 1 })
    );
    assert_eq!(events, vec![Event::EndGame]);
}

#[test]
fn a_kan_without_a_dora_indicator_left_fails() {
    let seats = |discards: Vec<ActionItem>| {
        [
            seat(0, vec![tile(Pai::South), tile(Pai::Man1)], discards),
            seat(1, vec![], vec![]),
            seat(2, vec![], vec![]),
            seat(3, vec![], vec![]),
        ]
    };
    let ankan = round(6, vec![Pai::Haku], seats(vec![naki("424242a42"), same()]), draw_end());
    let kakan = round(6, vec![Pai::Haku], seats(vec![naki("k16161616"), same()]), draw_end());
    for kyoku in [ankan, kakan] {
        let mut kyoku = kyoku;
        kyoku.action_tables.swap(0, 2);
        let mut events = vec![Event::EndGame];
        assert_eq!(
            tenhou_kyoku_to_mjai_events(&mut events, &kyoku),
            Err(ConvertError::InsufficientDoraIndicators { kyoku: 6, honba: 1 })
        );
        assert_eq!(events, vec![Event::EndGame]);
    }
}

#[test]
fn a_seat_that_has_to_take_and_cannot_fails_the_round() {
    let kyoku = round(
        9,
        vec![Pai::Haku],
        [
            seat(0, vec![tile(Pai::Man1)], vec![]),
            seat(1, vec![tile(Pai::Man1)], vec![same()]),
            seat(2, vec![], vec![]),
            seat(3, vec![], vec![]),
        ],
        draw_end(),
    );
    let mut events = vec![Event::EndGame];
    assert_eq!(
        tenhou_kyoku_to_mjai_events(&mut events, &kyoku),
        Err(ConvertError::InsufficientTakes { kyoku: 9, honba: 1, actor: 2 })
    );
    assert_eq!(events, vec![Event::EndGame]);
}

#[test]
fn a_reach_without_its_discard_fails_the_round() {
    let kyoku = round(
        9,
        vec![Pai::Haku],
        [
            seat(0, vec![], vec![]),
            seat(1, vec![], vec![]),
            seat(2, vec![], vec![]),
            seat(3, vec![], vec![]),
        ],
        draw_end(),
    );
    let takes = [vec![], vec![tsumo(1, Pai::Man1), tsumo(1, Pai::Man2)], vec![], vec![]];
    let discards = [vec![], vec![Event::Reach { actor: 1 }], vec![], vec![]];
    let mut events = vec![Event::EndGame];
    assert_eq!(
        merge(&mut events, &kyoku, &takes, &discards),
        Err(ConvertError::InsufficientDiscards { kyoku: 9, honba: 1, actor: 1 })
    );
    assert_eq!(events, vec![Event::EndGame]);
}

#[test]
fn a_sequence_that_does_not_convert_fails_the_round() {
    let base = || {
        [
            seat(0, vec![tile(Pai::Man1)], vec![]),
            seat(1, vec![], vec![]),
            seat(2, vec![], vec![]),
            seat(3, vec![], vec![]),
        ]
    };
    let mut seats = base();
    seats[2].takes.push(same());
    assert_eq!(
        convert(&round(0, vec![Pai::Haku], seats, draw_end())),
        Err(ConvertError::UnexpectedTsumogiri)
    );
    // takes are converted before discards, seat by seat
    let mut seats = base();
    seats[0].discards.push(naki("r6"));
    seats[3].takes.push(naki("p2525"));
    seats[1].takes.push(naki("c279926"));
    assert_eq!(
        convert(&round(0, vec![], seats, draw_end())),
        Err(ConvertError::InvalidPai("99".to_owned()))
    );
    let mut seats = base();
    seats[0].discards.push(naki("r6"));
    seats[3].takes.push(naki("p2525"));
    assert_eq!(
        convert(&round(0, vec![], seats, draw_end())),
        Err(ConvertError::InvalidNaki("p2525".to_owned()))
    );
    let mut seats = base();
    seats[3].discards.push(naki("r6"));
    seats[1].discards.push(naki("zz"));
    assert_eq!(
        convert(&round(0, vec![], seats, draw_end())),
        Err(ConvertError::InvalidNaki("zz".to_owned()))
    );
}

fn names() -> [String; 4] {
    ["a".to_owned(), "b".to_owned(), "c".to_owned(), "d".to_owned()]
}

#[test]
fn a_game_is_its_rounds_between_its_start_and_its_end() {
    let log = Log {
        names: names(),
        game_length: GameLength::Tonpuu,
        has_aka: true,
        kyokus: vec![plain_round(), plain_round()],
    };
    let mut expected =
        vec![Event::StartGame { kyoku_first: 4, aka_flag: true, names: names() }];
    expected.extend(plain_round_events());
    expected.extend(plain_round_events());
    expected.push(Event::EndGame);
    assert_eq!(tenhou_to_mjai(&log), Ok(expected));
}

#[test]
fn a_game_without_rounds_starts_and_ends() {
    let log =
        Log { names: names(), game_length: GameLength::Hanchan, has_aka: false, kyokus: vec![] };
    assert_eq!(
        tenhou_to_mjai(&log),
        Ok(vec![
            Event::StartGame { kyoku_first: 0, aka_flag: false, names: names() },
            Event::EndGame,
        ])
    );
    assert_eq!(GameLength::Hanchan.as_u8(), 0);
    assert_eq!(GameLength::Tonpuu.as_u8(), 4);
}

#[test]
fn a_game_fails_with_its_first_round_that_fails() {
    let mut no_dora = plain_round();
    no_dora.dora_indicators.clear();
    no_dora.meta.honba = 7;
    let mut bad_call = plain_round();
    bad_call.action_tables[0].takes.push(naki("p2525"));
    let log = Log {
        names: names(),
        game_length: GameLength::Hanchan,
        has_aka: false,
        kyokus: vec![plain_round(), no_dora, bad_call],
    };
    assert_eq!(
        tenhou_to_mjai(&log),
        Err(ConvertError::InsufficientDoraIndicators { kyoku: 5, honba: 7 })
    );
}

fn is_take_of(event: &Event, seat: u8) -> bool {
    match event {
        Event::Tsumo { actor, .. }
        | Event::Chi { actor, .. }
        | Event::Pon { actor, .. }
        | Event::Daiminkan { actor, .. } => *actor == seat,
        _ => false,
    }
}

fn is_discard_of(event: &Event, seat: u8) -> bool {
    match event {
        Event::Dahai { actor, .. }
        | Event::Reach { actor }
        | Event::Kakan { actor, .. }
        | Event::Ankan { actor, .. } => *actor == seat,
        _ => false,
    }
}

fn reaches(discards: &[ActionItem]) -> usize {
    discards.iter().filter(|item| matches!(item, ActionItem::Naki(text) if text.starts_with('r'))).count()
}

#[test]
fn a_round_read_to_the_end_emits_each_take_and_each_discard_once() {
    let rounds = [
        plain_round(),
        round(
            3,
            vec![Pai::Haku],
            [
                seat(0, vec![tile(Pai::Pin1)], vec![same()]),
                seat(1, vec![tile(Pai::Pin2)], vec![naki("r27")]),
                seat(2, vec![tile(Pai::Pin3)], vec![]),
                seat(3, vec![tile(Pai::Man1)], vec![naki("r60")]),
            ],
            draw_end(),
        ),
        round(
            2,
            vec![Pai::Haku, Pai::Hatsu, Pai::Chun, Pai::East],
            [
                seat(0, vec![], vec![]),
                seat(1, vec![], vec![]),
                seat(
                    2,
                    vec![tile(Pai::Man6), tile(Pai::South), tile(Pai::Sou1), tile(Pai::Sou2)],
                    vec![naki("k16161616"), naki("424242a42"), naki("3131k3131"), tile(Pai::Sou3)],
                ),
                seat(3, vec![], vec![]),
            ],
            draw_end(),
        ),
    ];
    for kyoku in rounds {
        let events = convert(&kyoku).unwrap();
        for s in 0..4u8 {
            let table = &kyoku.action_tables[s as usize];
            let takes = events.iter().filter(|e| is_take_of(e, s)).count();
            let discards = events.iter().filter(|e| is_discard_of(e, s)).count();
            assert_eq!(takes, table.takes.len());
            assert_eq!(discards, table.discards.len() + reaches(&table.discards));
        }
    }
}

#[test]
fn the_discard_passed_over_after_a_called_kan_is_not_emitted() {
    let kyoku = round(
        0,
        vec![Pai::Haku, Pai::Hatsu],
        [
            seat(0, vec![tile(Pai::Man1)], vec![tile(Pai::Sou9)]),
            seat(
                1,
                vec![naki("m39393939"), tile(Pai::Pin1)],
                vec![tile(Pai::Unknown), tile(Pai::Pin2)],
            ),
            seat(2, vec![], vec![]),
            seat(3, vec![], vec![]),
        ],
        draw_end(),
    );
    let events = convert(&kyoku).unwrap();
    assert_eq!(events.iter().filter(|e| is_take_of(e, 1)).count(), 2);
    assert_eq!(events.iter().filter(|e| is_discard_of(e, 1)).count(), 1);
}

#[test]
fn a_round_that_ends_on_a_draw_leaves_the_takes_of_others_unread() {
    let kyoku = round(
        0,
        vec![Pai::Haku],
        [
            seat(0, vec![tile(Pai::Man1)], vec![]),
            seat(1, vec![tile(Pai::Man2)], vec![]),
            seat(2, vec![], vec![]),
            seat(3, vec![], vec![]),
        ],
        draw_end(),
    );
    assert_eq!(
        convert(&kyoku),
        Ok(with_end(vec![opening(0, Pai::East, Pai::Haku), tsumo(0, Pai::Man1)], draw_events()))
    );
}
