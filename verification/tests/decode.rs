use convlog::conv::{
    discard_action_to_events, pai_from_bytes, take_action_to_events, ConvertError,
};
use convlog::mjai::{Consumed2, Consumed3, Consumed4, Event};
use convlog::naki::{decode_discard, decode_take, Call};
use convlog::pai::Pai;
use convlog::tenhou::ActionItem;
use convlog::token::parse_number;

fn naki(text: &str) -> ActionItem {
    ActionItem::Naki(text.to_owned())
}

fn take(actor: u8, text: &str) -> Result<Vec<Event>, ConvertError> {
    take_action_to_events(actor, &[naki(text)])
}

fn discard(actor: u8, text: &str) -> Result<Vec<Event>, ConvertError> {
    discard_action_to_events(actor, &[naki(text)])
}

fn invalid_naki(text: &str) -> ConvertError {
    ConvertError::InvalidNaki(text.to_owned())
}

fn invalid_pai(text: &str) -> ConvertError {
    ConvertError::InvalidPai(text.to_owned())
}

#[test]
fn numbers_are_read_as_decimal_bytes() {
    assert_eq!(parse_number(b"27"), Some(27));
    assert_eq!(parse_number(b"00"), Some(0));
    assert_eq!(parse_number(b"07"), Some(7));
    assert_eq!(parse_number(b"+7"), Some(7));
    assert_eq!(parse_number(b"255"), Some(255));
    assert_eq!(parse_number(b"000255"), Some(255));
    assert_eq!(parse_number(b"256"), None);
    assert_eq!(parse_number(b"1000"), None);
    assert_eq!(parse_number(b""), None);
    assert_eq!(parse_number(b"+"), None);
    assert_eq!(parse_number(b"-1"), None);
    assert_eq!(parse_number(b"++1"), None);
    assert_eq!(parse_number(b"1+"), None);
    assert_eq!(parse_number(b" 1"), None);
    assert_eq!(parse_number(b"1a"), None);
    assert_eq!(parse_number(b"c2"), None);
}

#[test]
fn tokens_name_tiles() {
    assert_eq!(pai_from_bytes(b"27"), Ok(Pai::Pin7));
    assert_eq!(pai_from_bytes(b"52"), Ok(Pai::AkaPin5));
    assert_eq!(pai_from_bytes(b"47"), Ok(Pai::Chun));
    assert_eq!(pai_from_bytes(b"00"), Ok(Pai::Unknown));
}

#[test]
fn tokens_that_name_no_tile_come_back_as_text() {
    assert_eq!(pai_from_bytes(b"60"), Err(invalid_pai("60")));
    assert_eq!(pai_from_bytes(b"10"), Err(invalid_pai("10")));
    assert_eq!(pai_from_bytes(b"48"), Err(invalid_pai("48")));
    assert_eq!(pai_from_bytes(b"7c"), Err(invalid_pai("7c")));
    assert_eq!(pai_from_bytes(b""), Err(invalid_pai("")));
    assert_eq!(pai_from_bytes(b"999"), Err(invalid_pai("999")));
}

#[test]
fn bytes_that_are_no_text_come_back_replaced() {
    assert_eq!(pai_from_bytes(&[0xff, b'1']), Err(invalid_pai("\u{fffd}1")));
    assert_eq!(pai_from_bytes(&[b'1', 0xc3]), Err(invalid_pai("1\u{fffd}")));
    assert_eq!(pai_from_bytes(&[0xc3, 0xa9]), Err(invalid_pai("é")));
}

#[test]
fn chi_from_the_seat_before() {
    assert_eq!(
        decode_take(&"c275226".to_owned()),
        Ok(Call::Chi { pai: Pai::Pin7, consumed: [Pai::AkaPin5, Pai::Pin6] })
    );
    assert_eq!(
        take(0, "c275226"),
        Ok(vec![Event::Chi {
            actor: 0,
            target: 3,
            pai: Pai::Pin7,
            consumed: Consumed2([Pai::AkaPin5, Pai::Pin6]),
        }])
    );
    assert_eq!(
        take(2, "c171819"),
        Ok(vec![Event::Chi {
            actor: 2,
            target: 1,
            pai: Pai::Man7,
            consumed: Consumed2([Pai::Man8, Pai::Man9]),
        }])
    );
}

#[test]
fn pon_of_the_wrong_length_is_refused_with_its_text() {
    assert_eq!(take(0, "p2525"), Err(invalid_naki("p2525")));
    assert_eq!(decode_take(&"p2525".to_owned()), Err(invalid_naki("p2525")));
    assert_eq!(take(0, "p25252525"), Err(invalid_naki("p25252525")));
}

#[test]
fn pon_from_each_seat() {
    assert_eq!(
        take(1, "p252525"),
        Ok(vec![Event::Pon {
            actor: 1,
            target: 0,
            pai: Pai::Pin5,
            consumed: Consumed2([Pai::Pin5, Pai::Pin5]),
        }])
    );
    assert_eq!(
        take(1, "12p1212"),
        Ok(vec![Event::Pon {
            actor: 1,
            target: 3,
            pai: Pai::Man2,
            consumed: Consumed2([Pai::Man2, Pai::Man2]),
        }])
    );
    assert_eq!(
        take(3, "3737p37"),
        Ok(vec![Event::Pon {
            actor: 3,
            target: 0,
            pai: Pai::Sou7,
            consumed: Consumed2([Pai::Sou7, Pai::Sou7]),
        }])
    );
    assert_eq!(
        decode_take(&"15p5115".to_owned()),
        Ok(Call::Pon { offset: 2, pai: Pai::AkaMan5, consumed: [Pai::Man5, Pai::Man5] })
    );
    assert_eq!(
        decode_take(&"5315p35".to_owned()),
        Ok(Call::Pon { offset: 1, pai: Pai::Sou5, consumed: [Pai::AkaSou5, Pai::Man5] })
    );
}

#[test]
fn pon_with_its_letter_out_of_place_is_refused() {
    assert_eq!(take(0, "2p52525"), Err(invalid_naki("2p52525")));
    assert_eq!(take(0, "252p525"), Err(invalid_naki("252p525")));
    assert_eq!(take(0, "252525p"), Err(invalid_naki("252525p")));
    // the first letter decides
    assert_eq!(take(0, "25p25p5"), Err(invalid_pai("p5")));
}

#[test]
fn called_kan_from_each_seat() {
    assert_eq!(
        take(0, "m39393939"),
        Ok(vec![Event::Daiminkan {
            actor: 0,
            target: 3,
            pai: Pai::Sou9,
            consumed: Consumed3([Pai::Sou9, Pai::Sou9, Pai::Sou9]),
        }])
    );
    assert_eq!(
        take(0, "26m262626"),
        Ok(vec![Event::Daiminkan {
            actor: 0,
            target: 2,
            pai: Pai::Pin6,
            consumed: Consumed3([Pai::Pin6, Pai::Pin6, Pai::Pin6]),
        }])
    );
    assert_eq!(
        take(2, "131313m13"),
        Ok(vec![Event::Daiminkan {
            actor: 2,
            target: 3,
            pai: Pai::Man3,
            consumed: Consumed3([Pai::Man3, Pai::Man3, Pai::Man3]),
        }])
    );
    assert_eq!(
        decode_take(&"15m511515".to_owned()),
        Ok(Call::Daiminkan {
            offset: 2,
            pai: Pai::AkaMan5,
            consumed: [Pai::Man5, Pai::Man5, Pai::Man5]
        })
    );
    assert_eq!(take(0, "m393939"), Err(invalid_naki("m393939")));
    assert_eq!(take(0, "3939m3939"), Err(invalid_naki("3939m3939")));
}

#[test]
fn chi_goes_before_pon_and_pon_before_kan() {
    // a string with several letters is read as the first kind that it names
    assert_eq!(take(0, "c2752p6"), Err(invalid_pai("p6")));
    assert_eq!(take(0, "p2525m5"), Err(invalid_pai("m5")));
    assert_eq!(take(0, "p25c526"), Err(invalid_pai("c5")));
}

#[test]
fn takes_without_a_letter_are_refused() {
    assert_eq!(take(0, ""), Err(invalid_naki("")));
    assert_eq!(take(0, "272526"), Err(invalid_naki("272526")));
    assert_eq!(take(0, "k16161616"), Err(invalid_naki("k16161616")));
    assert_eq!(take(0, "424242a42"), Err(invalid_naki("424242a42")));
    assert_eq!(take(0, "r35"), Err(invalid_naki("r35")));
}

#[test]
fn tokens_of_a_call_are_read_called_tile_first() {
    assert_eq!(take(0, "c995226"), Err(invalid_pai("99")));
    assert_eq!(take(0, "c279926"), Err(invalid_pai("99")));
    assert_eq!(take(0, "c275298"), Err(invalid_pai("98")));
    assert_eq!(take(0, "c999897"), Err(invalid_pai("99")));
    assert_eq!(take(0, "98p9997"), Err(invalid_pai("99")));
    assert_eq!(take(0, "9897p99"), Err(invalid_pai("99")));
    assert_eq!(take(0, "9897p11"), Err(invalid_pai("98")));
    // the letter of a chi is looked for anywhere, its tokens are not
    assert_eq!(take(0, "27c5226"), Err(invalid_pai("7c")));
}

#[test]
fn added_kan_after_a_pon_from_each_seat() {
    assert_eq!(
        discard(1, "k16161616"),
        Ok(vec![Event::Kakan {
            actor: 1,
            pai: Pai::Man6,
            consumed: Consumed3([Pai::Man6, Pai::Man6, Pai::Man6]),
        }])
    );
    assert_eq!(
        decode_discard(&"41k414141".to_owned()),
        Ok(Call::Kakan { offset: 2, pai: Pai::East, consumed: [Pai::East, Pai::East, Pai::East] })
    );
    assert_eq!(
        decode_discard(&"1515k5115".to_owned()),
        Ok(Call::Kakan {
            offset: 1,
            pai: Pai::AkaMan5,
            consumed: [Pai::Man5, Pai::Man5, Pai::Man5]
        })
    );
    assert_eq!(
        discard(3, "4646k4646"),
        Ok(vec![Event::Kakan {
            actor: 3,
            pai: Pai::Hatsu,
            consumed: Consumed3([Pai::Hatsu, Pai::Hatsu, Pai::Hatsu]),
        }])
    );
    assert_eq!(discard(0, "464646k46"), Err(invalid_naki("464646k46")));
    assert_eq!(discard(0, "k161616"), Err(invalid_naki("k161616")));
}

#[test]
fn concealed_kan() {
    assert_eq!(
        discard(2, "424242a42"),
        Ok(vec![Event::Ankan {
            actor: 2,
            consumed: Consumed4([Pai::South, Pai::South, Pai::South, Pai::South]),
        }])
    );
    assert_eq!(
        decode_discard(&"151551a15".to_owned()),
        Ok(Call::Ankan { pai: Pai::Man5, consumed: [Pai::Man5, Pai::Man5, Pai::AkaMan5] })
    );
    assert_eq!(
        discard(2, "151551a15"),
        Ok(vec![Event::Ankan {
            actor: 2,
            consumed: Consumed4([Pai::Man5, Pai::Man5, Pai::AkaMan5, Pai::Man5]),
        }])
    );
    assert_eq!(discard(2, "4242a42"), Err(invalid_naki("4242a42")));
    // the token after the letter's place is read first, then the others
    assert_eq!(discard(2, "a42424242"), Err(invalid_pai("a4")));
    assert_eq!(discard(2, "4242a4242"), Err(invalid_pai("a4")));
    assert_eq!(discard(2, "424242a99"), Err(invalid_pai("99")));
}

#[test]
fn reach_is_a_declaration_and_a_discard() {
    assert_eq!(
        discard(3, "r35"),
        Ok(vec![
            Event::Reach { actor: 3 },
            Event::Dahai { actor: 3, pai: Pai::Sou5, tsumogiri: false },
        ])
    );
    assert_eq!(decode_discard(&"r35".to_owned()), Ok(Call::Reach { pai: Some(Pai::Sou5) }));
    assert_eq!(
        discard(3, "r60"),
        Ok(vec![
            Event::Reach { actor: 3 },
            Event::Dahai { actor: 3, pai: Pai::Unknown, tsumogiri: true },
        ])
    );
    assert_eq!(decode_discard(&"r60".to_owned()), Ok(Call::Reach { pai: None }));
    assert_eq!(
        discard(3, "r00"),
        Ok(vec![
            Event::Reach { actor: 3 },
            Event::Dahai { actor: 3, pai: Pai::Unknown, tsumogiri: true },
        ])
    );
}

#[test]
fn reach_needs_its_letter_and_its_length() {
    assert_eq!(discard(0, "r3"), Err(invalid_naki("r3")));
    assert_eq!(discard(0, "r355"), Err(invalid_naki("r355")));
    assert_eq!(discard(0, ""), Err(invalid_naki("")));
    assert_eq!(discard(0, "x35"), Err(invalid_naki("x35")));
    assert_eq!(discard(0, "35r"), Err(invalid_naki("35r")));
    assert_eq!(discard(0, "c275226"), Err(invalid_naki("c275226")));
    assert_eq!(discard(0, "r61"), Err(invalid_pai("61")));
    assert_eq!(discard(0, "ré"), Err(invalid_pai("é")));
}

#[test]
fn a_take_sequence_gives_one_event_for_each_entry() {
    let takes = vec![
        ActionItem::Pai(Pai::Man1),
        naki("c171819"),
        ActionItem::Pai(Pai::AkaSou5),
        naki("4747p47"),
        naki("m39393939"),
    ];
    let events = take_action_to_events(2, &takes).unwrap();
    assert_eq!(events.len(), takes.len());
    assert_eq!(
        events,
        vec![
            Event::Tsumo { actor: 2, pai: Pai::Man1 },
            Event::Chi {
                actor: 2,
                target: 1,
                pai: Pai::Man7,
                consumed: Consumed2([Pai::Man8, Pai::Man9]),
            },
            Event::Tsumo { actor: 2, pai: Pai::AkaSou5 },
            Event::Pon {
                actor: 2,
                target: 3,
                pai: Pai::Chun,
                consumed: Consumed2([Pai::Chun, Pai::Chun]),
            },
            Event::Daiminkan {
                actor: 2,
                target: 1,
                pai: Pai::Sou9,
                consumed: Consumed3([Pai::Sou9, Pai::Sou9, Pai::Sou9]),
            },
        ]
    );
    assert_eq!(take_action_to_events(2, &[]), Ok(vec![]));
}

#[test]
fn a_take_sequence_has_no_place_for_the_drawn_tile_mark() {
    assert_eq!(
        take_action_to_events(0, &[ActionItem::Pai(Pai::Man1), ActionItem::Tsumogiri(60)]),
        Err(ConvertError::UnexpectedTsumogiri)
    );
    // the first entry that fails decides
    assert_eq!(
        take_action_to_events(0, &[naki("p2525"), ActionItem::Tsumogiri(60)]),
        Err(invalid_naki("p2525"))
    );
    assert_eq!(
        take_action_to_events(0, &[ActionItem::Tsumogiri(60), naki("p2525")]),
        Err(ConvertError::UnexpectedTsumogiri)
    );
}

#[test]
fn a_discard_sequence_gives_two_events_for_each_reach() {
    let discards = vec![
        ActionItem::Pai(Pai::Man1),
        ActionItem::Tsumogiri(60),
        naki("424242a42"),
        naki("r60"),
        ActionItem::Tsumogiri(60),
        naki("k16161616"),
        naki("r27"),
    ];
    let events = discard_action_to_events(1, &discards).unwrap();
    assert_eq!(events.len(), discards.len() + 2);
    assert_eq!(
        events,
        vec![
            Event::Dahai { actor: 1, pai: Pai::Man1, tsumogiri: false },
            Event::Dahai { actor: 1, pai: Pai::Unknown, tsumogiri: true },
            Event::Ankan {
                actor: 1,
                consumed: Consumed4([Pai::South, Pai::South, Pai::South, Pai::South]),
            },
            Event::Reach { actor: 1 },
            Event::Dahai { actor: 1, pai: Pai::Unknown, tsumogiri: true },
            Event::Dahai { actor: 1, pai: Pai::Unknown, tsumogiri: true },
            Event::Kakan {
                actor: 1,
                pai: Pai::Man6,
                consumed: Consumed3([Pai::Man6, Pai::Man6, Pai::Man6]),
            },
            Event::Reach { actor: 1 },
            Event::Dahai { actor: 1, pai: Pai::Pin7, tsumogiri: false },
        ]
    );
    assert_eq!(discard_action_to_events(1, &[]), Ok(vec![]));
    assert_eq!(
        discard_action_to_events(1, &[ActionItem::Pai(Pai::Man1), naki("r6"), naki("zz")]),
        Err(invalid_naki("r6"))
    );
}

#[test]
fn a_call_is_written_back_as_the_string_it_was_read_from() {
    for text in [
        "c275226", "c171819", "p252525", "12p1212", "3737p37", "15p5115", "5315p35", "m39393939",
        "26m262626", "131313m13", "15m511515", "c000000",
    ] {
        let call = decode_take(&text.to_owned()).unwrap();
        assert_eq!(call.encode(), text.as_bytes());
    }
    for text in [
        "k16161616", "41k414141", "4646k4646", "1515k5115", "424242a42", "151551a15", "r35", "r60",
        "r00", "r53",
    ] {
        let call = decode_discard(&text.to_owned()).unwrap();
        assert_eq!(call.encode(), text.as_bytes());
    }
}

#[test]
fn a_token_with_a_plus_sign_is_written_back_with_digits() {
    assert_eq!(decode_take(&"c+0+0+0".to_owned()).unwrap().encode(), b"c000000");
    assert_eq!(
        decode_take(&"c+0+0+0".to_owned()),
        Ok(Call::Chi { pai: Pai::Unknown, consumed: [Pai::Unknown, Pai::Unknown] })
    );
    assert_eq!(decode_discard(&"r+0".to_owned()).unwrap().encode(), b"r00");
}

#[test]
fn a_written_call_reads_back() {
    let takes = [
        Call::Chi { pai: Pai::Sou3, consumed: [Pai::Sou4, Pai::AkaSou5] },
        Call::Pon { offset: 3, pai: Pai::Haku, consumed: [Pai::Haku, Pai::Haku] },
        Call::Pon { offset: 2, pai: Pai::AkaPin5, consumed: [Pai::Pin5, Pai::Pin5] },
        Call::Pon { offset: 1, pai: Pai::Man9, consumed: [Pai::Man9, Pai::Man9] },
        Call::Daiminkan { offset: 3, pai: Pai::East, consumed: [Pai::East, Pai::East, Pai::East] },
        Call::Daiminkan { offset: 2, pai: Pai::Pin1, consumed: [Pai::Pin1, Pai::Pin1, Pai::Pin1] },
        Call::Daiminkan { offset: 1, pai: Pai::Sou5, consumed: [Pai::Sou5, Pai::AkaSou5, Pai::Sou5] },
    ];
    for call in takes {
        let text = String::from_utf8(call.encode()).unwrap();
        assert_eq!(decode_take(&text), Ok(call));
    }
    let discards = [
        Call::Kakan { offset: 3, pai: Pai::East, consumed: [Pai::East, Pai::East, Pai::East] },
        Call::Kakan { offset: 2, pai: Pai::Pin1, consumed: [Pai::Pin1, Pai::Pin1, Pai::Pin1] },
        Call::Kakan { offset: 1, pai: Pai::AkaSou5, consumed: [Pai::Sou5, Pai::Sou5, Pai::Sou5] },
        Call::Ankan { pai: Pai::Chun, consumed: [Pai::Chun, Pai::Chun, Pai::Chun] },
        Call::Reach { pai: Some(Pai::North) },
        Call::Reach { pai: Some(Pai::Unknown) },
        Call::Reach { pai: None },
    ];
    for call in discards {
        let text = String::from_utf8(call.encode()).unwrap();
        assert_eq!(decode_discard(&text), Ok(call));
    }
    assert_eq!(Call::Chi { pai: Pai::Sou3, consumed: [Pai::Sou4, Pai::AkaSou5] }.encode(), b"c333453");
    assert_eq!(Call::Reach { pai: None }.encode(), b"r60");
}

#[test]
fn a_call_becomes_the_event_of_the_seat_that_makes_it() {
    let call = Call::Pon { offset: 1, pai: Pai::Man9, consumed: [Pai::Man8, Pai::Man7] };
    for (actor, target) in [(0, 1), (1, 2), (2, 3), (3, 0)] {
        assert_eq!(
            call.event(actor),
            Event::Pon {
                actor,
                target,
                pai: Pai::Man9,
                consumed: Consumed2([Pai::Man8, Pai::Man7]),
            }
        );
    }
    assert_eq!(Call::Reach { pai: Some(Pai::Man1) }.event(2), Event::Reach { actor: 2 });
    assert_eq!(
        Call::Ankan { pai: Pai::Man1, consumed: [Pai::Man2, Pai::Man3, Pai::Man4] }.event(2),
        Event::Ankan { actor: 2, consumed: Consumed4([Pai::Man2, Pai::Man3, Pai::Man4, Pai::Man1]) }
    );
}
