//! Tiles and their two textual encodings.
//!
//! A tile has a numeric code, as the compact per-seat tables write it, and a
//! short mnemonic, as the event stream writes it. Both encodings are given
//! here as total spec functions on [`Pai`], and every executable conversion
//! is proved against them.

use vstd::prelude::*;

verus! {

/// One tile: nine ranks in each of three suits, seven honors, three red
/// fives, and a placeholder for a tile that is not known yet.
#[derive(Debug, Clone, Copy, PartialEq, Eq, Hash, Structural)]
pub enum Pai {
    Unknown,

    Man1,
    Man2,
    Man3,
    Man4,
    Man5,
    Man6,
    Man7,
    Man8,
    Man9,

    Pin1,
    Pin2,
    Pin3,
    Pin4,
    Pin5,
    Pin6,
    Pin7,
    Pin8,
    Pin9,

    Sou1,
    Sou2,
    Sou3,
    Sou4,
    Sou5,
    Sou6,
    Sou7,
    Sou8,
    Sou9,

    East,
    South,
    West,
    North,
    Haku,
    Hatsu,
    Chun,

    AkaMan5,
    AkaPin5,
    AkaSou5,
}

/// A mnemonic that names no tile, with the text that was given.
#[derive(Debug, Clone, PartialEq, Eq)]
pub enum ParseError {
    InvalidPaiString(String),
}

impl View for ParseError {
    type V = Seq<char>;

    /// The text that failed to parse.
    open spec fn view(&self) -> Seq<char> {
        match self {
            ParseError::InvalidPaiString(s) => s@,
        }
    }
}

impl Pai {
    /// The numeric code of a tile.
    pub open spec fn code(self) -> u8 {
        match self {
            Pai::Unknown => 0,
            Pai::Man1 => 11,
            Pai::Man2 => 12,
            Pai::Man3 => 13,
            Pai::Man4 => 14,
            Pai::Man5 => 15,
            Pai::Man6 => 16,
            Pai::Man7 => 17,
            Pai::Man8 => 18,
            Pai::Man9 => 19,
            Pai::Pin1 => 21,
            Pai::Pin2 => 22,
            Pai::Pin3 => 23,
            Pai::Pin4 => 24,
            Pai::Pin5 => 25,
            Pai::Pin6 => 26,
            Pai::Pin7 => 27,
            Pai::Pin8 => 28,
            Pai::Pin9 => 29,
            Pai::Sou1 => 31,
            Pai::Sou2 => 32,
            Pai::Sou3 => 33,
            Pai::Sou4 => 34,
            Pai::Sou5 => 35,
            Pai::Sou6 => 36,
            Pai::Sou7 => 37,
            Pai::Sou8 => 38,
            Pai::Sou9 => 39,
            Pai::East => 41,
            Pai::South => 42,
            Pai::West => 43,
            Pai::North => 44,
            Pai::Haku => 45,
            Pai::Hatsu => 46,
            Pai::Chun => 47,
            Pai::AkaMan5 => 51,
            Pai::AkaPin5 => 52,
            Pai::AkaSou5 => 53,
        }
    }

    /// The tile that a numeric code stands for, if it stands for one.
    pub open spec fn from_code(code: u8) -> Option<Pai> {
        match code {
            0u8 => Some(Pai::Unknown),
            11u8 => Some(Pai::Man1),
            12u8 => Some(Pai::Man2),
            13u8 => Some(Pai::Man3),
            14u8 => Some(Pai::Man4),
            15u8 => Some(Pai::Man5),
            16u8 => Some(Pai::Man6),
            17u8 => Some(Pai::Man7),
            18u8 => Some(Pai::Man8),
            19u8 => Some(Pai::Man9),
            21u8 => Some(Pai::Pin1),
            22u8 => Some(Pai::Pin2),
            23u8 => Some(Pai::Pin3),
            24u8 => Some(Pai::Pin4),
            25u8 => Some(Pai::Pin5),
            26u8 => Some(Pai::Pin6),
            27u8 => Some(Pai::Pin7),
            28u8 => Some(Pai::Pin8),
            29u8 => Some(Pai::Pin9),
            31u8 => Some(Pai::Sou1),
            32u8 => Some(Pai::Sou2),
            33u8 => Some(Pai::Sou3),
            34u8 => Some(Pai::Sou4),
            35u8 => Some(Pai::Sou5),
            36u8 => Some(Pai::Sou6),
            37u8 => Some(Pai::Sou7),
            38u8 => Some(Pai::Sou8),
            39u8 => Some(Pai::Sou9),
            41u8 => Some(Pai::East),
            42u8 => Some(Pai::South),
            43u8 => Some(Pai::West),
            44u8 => Some(Pai::North),
            45u8 => Some(Pai::Haku),
            46u8 => Some(Pai::Hatsu),
            47u8 => Some(Pai::Chun),
            51u8 => Some(Pai::AkaMan5),
            52u8 => Some(Pai::AkaPin5),
            53u8 => Some(Pai::AkaSou5),
            _ => None,
        }
    }

    /// The mnemonic of a tile.
    pub open spec fn mjai(self) -> Seq<char> {
        match self {
            Pai::Unknown => seq!['?'],
            Pai::Man1 => seq!['1', 'm'],
            Pai::Man2 => seq!['2', 'm'],
            Pai::Man3 => seq!['3', 'm'],
            Pai::Man4 => seq!['4', 'm'],
            Pai::Man5 => seq!['5', 'm'],
            Pai::Man6 => seq!['6', 'm'],
            Pai::Man7 => seq!['7', 'm'],
            Pai::Man8 => seq!['8', 'm'],
            Pai::Man9 => seq!['9', 'm'],
            Pai::Pin1 => seq!['1', 'p'],
            Pai::Pin2 => seq!['2', 'p'],
            Pai::Pin3 => seq!['3', 'p'],
            Pai::Pin4 => seq!['4', 'p'],
            Pai::Pin5 => seq!['5', 'p'],
            Pai::Pin6 => seq!['6', 'p'],
            Pai::Pin7 => seq!['7', 'p'],
            Pai::Pin8 => seq!['8', 'p'],
            Pai::Pin9 => seq!['9', 'p'],
            Pai::Sou1 => seq!['1', 's'],
            Pai::Sou2 => seq!['2', 's'],
            Pai::Sou3 => seq!['3', 's'],
            Pai::Sou4 => seq!['4', 's'],
            Pai::Sou5 => seq!['5', 's'],
            Pai::Sou6 => seq!['6', 's'],
            Pai::Sou7 => seq!['7', 's'],
            Pai::Sou8 => seq!['8', 's'],
            Pai::Sou9 => seq!['9', 's'],
            Pai::East => seq!['E'],
            Pai::South => seq!['S'],
            Pai::West => seq!['W'],
            Pai::North => seq!['N'],
            Pai::Haku => seq!['P'],
            Pai::Hatsu => seq!['F'],
            Pai::Chun => seq!['C'],
            Pai::AkaMan5 => seq!['5', 'm', 'r'],
            Pai::AkaPin5 => seq!['5', 'p', 'r'],
            Pai::AkaSou5 => seq!['5', 's', 'r'],
        }
    }

    /// The numeric code, as a byte.
    #[inline]
    pub fn as_u8(self) -> (code: u8)
        ensures
            code == self.code(),
    {
        match self {
            Pai::Unknown => 0,
            Pai::Man1 => 11,
            Pai::Man2 => 12,
            Pai::Man3 => 13,
            Pai::Man4 => 14,
            Pai::Man5 => 15,
            Pai::Man6 => 16,
            Pai::Man7 => 17,
            Pai::Man8 => 18,
            Pai::Man9 => 19,
            Pai::Pin1 => 21,
            Pai::Pin2 => 22,
            Pai::Pin3 => 23,
            Pai::Pin4 => 24,
            Pai::Pin5 => 25,
            Pai::Pin6 => 26,
            Pai::Pin7 => 27,
            Pai::Pin8 => 28,
            Pai::Pin9 => 29,
            Pai::Sou1 => 31,
            Pai::Sou2 => 32,
            Pai::Sou3 => 33,
            Pai::Sou4 => 34,
            Pai::Sou5 => 35,
            Pai::Sou6 => 36,
            Pai::Sou7 => 37,
            Pai::Sou8 => 38,
            Pai::Sou9 => 39,
            Pai::East => 41,
            Pai::South => 42,
            Pai::West => 43,
            Pai::North => 44,
            Pai::Haku => 45,
            Pai::Hatsu => 46,
            Pai::Chun => 47,
            Pai::AkaMan5 => 51,
            Pai::AkaPin5 => 52,
            Pai::AkaSou5 => 53,
        }
    }

    /// The numeric code, as an index.
    #[inline]
    pub fn as_usize(self) -> (code: usize)
        ensures
            code == self.code(),
    {
        let code: u8 = self.as_u8();
        code as usize
    }

    /// Reads a numeric code: `Some` of the tile exactly for the codes that
    /// stand for one.
    pub fn from_u8(code: u8) -> (pai: Option<Pai>)
        ensures
            pai == Pai::from_code(code),
    {
        match code {
            0u8 => Some(Pai::Unknown),
            11u8 => Some(Pai::Man1),
            12u8 => Some(Pai::Man2),
            13u8 => Some(Pai::Man3),
            14u8 => Some(Pai::Man4),
            15u8 => Some(Pai::Man5),
            16u8 => Some(Pai::Man6),
            17u8 => Some(Pai::Man7),
            18u8 => Some(Pai::Man8),
            19u8 => Some(Pai::Man9),
            21u8 => Some(Pai::Pin1),
            22u8 => Some(Pai::Pin2),
            23u8 => Some(Pai::Pin3),
            24u8 => Some(Pai::Pin4),
            25u8 => Some(Pai::Pin5),
            26u8 => Some(Pai::Pin6),
            27u8 => Some(Pai::Pin7),
            28u8 => Some(Pai::Pin8),
            29u8 => Some(Pai::Pin9),
            31u8 => Some(Pai::Sou1),
            32u8 => Some(Pai::Sou2),
            33u8 => Some(Pai::Sou3),
            34u8 => Some(Pai::Sou4),
            35u8 => Some(Pai::Sou5),
            36u8 => Some(Pai::Sou6),
            37u8 => Some(Pai::Sou7),
            38u8 => Some(Pai::Sou8),
            39u8 => Some(Pai::Sou9),
            41u8 => Some(Pai::East),
            42u8 => Some(Pai::South),
            43u8 => Some(Pai::West),
            44u8 => Some(Pai::North),
            45u8 => Some(Pai::Haku),
            46u8 => Some(Pai::Hatsu),
            47u8 => Some(Pai::Chun),
            51u8 => Some(Pai::AkaMan5),
            52u8 => Some(Pai::AkaPin5),
            53u8 => Some(Pai::AkaSou5),
            _ => None,
        }
    }

    /// Writes the mnemonic of a tile.
    pub fn to_string(self) -> (text: String)
        ensures
            text@ == self.mjai(),
    {
        match self {
            Pai::Unknown => {
                proof {
                    reveal_strlit("?");
                }
                "?".to_owned()
            },
            Pai::Man1 => {
                proof {
                    reveal_strlit("1m");
                }
                "1m".to_owned()
            },
            Pai::Man2 => {
                proof {
                    reveal_strlit("2m");
                }
                "2m".to_owned()
            },
            Pai::Man3 => {
                proof {
                    reveal_strlit("3m");
                }
                "3m".to_owned()
            },
            Pai::Man4 => {
                proof {
                    reveal_strlit("4m");
                }
                "4m".to_owned()
            },
            Pai::Man5 => {
                proof {
                    reveal_strlit("5m");
                }
                "5m".to_owned()
            },
            Pai::Man6 => {
                proof {
                    reveal_strlit("6m");
                }
                "6m".to_owned()
            },
            Pai::Man7 => {
                proof {
                    reveal_strlit("7m");
                }
                "7m".to_owned()
            },
            Pai::Man8 => {
                proof {
                    reveal_strlit("8m");
                }
                "8m".to_owned()
            },
            Pai::Man9 => {
                proof {
                    reveal_strlit("9m");
                }
                "9m".to_owned()
            },
            Pai::Pin1 => {
                proof {
                    reveal_strlit("1p");
                }
                "1p".to_owned()
            },
            Pai::Pin2 => {
                proof {
                    reveal_strlit("2p");
                }
                "2p".to_owned()
            },
            Pai::Pin3 => {
                proof {
                    reveal_strlit("3p");
                }
                "3p".to_owned()
            },
            Pai::Pin4 => {
                proof {
                    reveal_strlit("4p");
                }
                "4p".to_owned()
            },
            Pai::Pin5 => {
                proof {
                    reveal_strlit("5p");
                }
                "5p".to_owned()
            },
            Pai::Pin6 => {
                proof {
                    reveal_strlit("6p");
                }
                "6p".to_owned()
            },
            Pai::Pin7 => {
                proof {
                    reveal_strlit("7p");
                }
                "7p".to_owned()
            },
            Pai::Pin8 => {
                proof {
                    reveal_strlit("8p");
                }
                "8p".to_owned()
            },
            Pai::Pin9 => {
                proof {
                    reveal_strlit("9p");
                }
                "9p".to_owned()
            },
            Pai::Sou1 => {
                proof {
                    reveal_strlit("1s");
                }
                "1s".to_owned()
            },
            Pai::Sou2 => {
                proof {
                    reveal_strlit("2s");
                }
                "2s".to_owned()
            },
            Pai::Sou3 => {
                proof {
                    reveal_strlit("3s");
                }
                "3s".to_owned()
            },
            Pai::Sou4 => {
                proof {
                    reveal_strlit("4s");
                }
                "4s".to_owned()
            },
            Pai::Sou5 => {
                proof {
                    reveal_strlit("5s");
                }
                "5s".to_owned()
            },
            Pai::Sou6 => {
                proof {
                    reveal_strlit("6s");
                }
                "6s".to_owned()
            },
            Pai::Sou7 => {
                proof {
                    reveal_strlit("7s");
                }
                "7s".to_owned()
            },
            Pai::Sou8 => {
                proof {
                    reveal_strlit("8s");
                }
                "8s".to_owned()
            },
            Pai::Sou9 => {
                proof {
                    reveal_strlit("9s");
                }
                "9s".to_owned()
            },
            Pai::East => {
                proof {
                    reveal_strlit("E");
                }
                "E".to_owned()
            },
            Pai::South => {
                proof {
                    reveal_strlit("S");
                }
                "S".to_owned()
            },
            Pai::West => {
                proof {
                    reveal_strlit("W");
                }
                "W".to_owned()
            },
            Pai::North => {
                proof {
                    reveal_strlit("N");
                }
                "N".to_owned()
            },
            Pai::Haku => {
                proof {
                    reveal_strlit("P");
                }
                "P".to_owned()
            },
            Pai::Hatsu => {
                proof {
                    reveal_strlit("F");
                }
                "F".to_owned()
            },
            Pai::Chun => {
                proof {
                    reveal_strlit("C");
                }
                "C".to_owned()
            },
            Pai::AkaMan5 => {
                proof {
                    reveal_strlit("5mr");
                }
                "5mr".to_owned()
            },
            Pai::AkaPin5 => {
                proof {
                    reveal_strlit("5pr");
                }
                "5pr".to_owned()
            },
            Pai::AkaSou5 => {
                proof {
                    reveal_strlit("5sr");
                }
                "5sr".to_owned()
            },
        }
    }

    /// Reads a mnemonic: the tile whose mnemonic the text is, or the text
    /// back in an error when it is the mnemonic of no tile.
    pub fn from_mjai_str(s: &str) -> (r: Result<Pai, ParseError>)
        ensures
            match r {
                Ok(pai) => pai.mjai() == s@,
                Err(e) => e@ == s@ && forall|pai: Pai| pai.mjai() != s@,
            },
    {
        let n: usize = s.unicode_len();
        let found = if n == 1 {
            Pai::honor_of(s.get_char(0))
        } else if n == 2 {
            Pai::suited_of(s.get_char(0), s.get_char(1))
        } else if n == 3 {
            Pai::red_of(s.get_char(0), s.get_char(1), s.get_char(2))
        } else {
            None
        };
        match found {
            Some(pai) => {
                assert(pai.mjai() =~= s@);
                Ok(pai)
            },
            None => {
                assert forall|pai: Pai| pai.mjai() != s@ by {
                    Pai::lemma_mjai_shape(pai);
                }
                Err(ParseError::InvalidPaiString(s.to_owned()))
            },
        }
    }

    /// The tile written with the one character `c`.
    fn honor_of(c: char) -> (pai: Option<Pai>)
        ensures
            match pai {
                Some(p) => p.mjai() == seq![c],
                None => forall|p: Pai| p.mjai() != seq![c],
            },
    {
        let pai = match c {
            '?' => Some(Pai::Unknown),
            'E' => Some(Pai::East),
            'S' => Some(Pai::South),
            'W' => Some(Pai::West),
            'N' => Some(Pai::North),
            'P' => Some(Pai::Haku),
            'F' => Some(Pai::Hatsu),
            'C' => Some(Pai::Chun),
            _ => None,
        };
        proof {
            match pai {
                Some(p) => {
                    assert(p.mjai() =~= seq![c]);
                },
                None => {
                    assert forall|p: Pai| p.mjai() != seq![c] by {
                        Pai::lemma_mjai_shape(p);
                        if p.mjai().len() == 1 {
                            assert(seq![c][0] == c);
                        }
                    }
                },
            }
        }
        pai
    }

    /// The tile written with the two characters `rank`, `suit`.
    fn suited_of(rank: char, suit: char) -> (pai: Option<Pai>)
        ensures
            match pai {
                Some(p) => p.mjai() == seq![rank, suit],
                None => forall|p: Pai| p.mjai() != seq![rank, suit],
            },
    {
        let pai = match (rank, suit) {
            ('1', 'm') => Some(Pai::Man1),
            ('2', 'm') => Some(Pai::Man2),
            ('3', 'm') => Some(Pai::Man3),
            ('4', 'm') => Some(Pai::Man4),
            ('5', 'm') => Some(Pai::Man5),
            ('6', 'm') => Some(Pai::Man6),
            ('7', 'm') => Some(Pai::Man7),
            ('8', 'm') => Some(Pai::Man8),
            ('9', 'm') => Some(Pai::Man9),
            ('1', 'p') => Some(Pai::Pin1),
            ('2', 'p') => Some(Pai::Pin2),
            ('3', 'p') => Some(Pai::Pin3),
            ('4', 'p') => Some(Pai::Pin4),
            ('5', 'p') => Some(Pai::Pin5),
            ('6', 'p') => Some(Pai::Pin6),
            ('7', 'p') => Some(Pai::Pin7),
            ('8', 'p') => Some(Pai::Pin8),
            ('9', 'p') => Some(Pai::Pin9),
            ('1', 's') => Some(Pai::Sou1),
            ('2', 's') => Some(Pai::Sou2),
            ('3', 's') => Some(Pai::Sou3),
            ('4', 's') => Some(Pai::Sou4),
            ('5', 's') => Some(Pai::Sou5),
            ('6', 's') => Some(Pai::Sou6),
            ('7', 's') => Some(Pai::Sou7),
            ('8', 's') => Some(Pai::Sou8),
            ('9', 's') => Some(Pai::Sou9),
            _ => None,
        };
        proof {
            match pai {
                Some(p) => {
                    assert(p.mjai() =~= seq![rank, suit]);
                },
                None => {
                    assert forall|p: Pai| p.mjai() != seq![rank, suit] by {
                        Pai::lemma_mjai_shape(p);
                        if p.mjai().len() == 2 {
                            assert(seq![rank, suit][0] == rank);
                            assert(seq![rank, suit][1] == suit);
                        }
                    }
                },
            }
        }
        pai
    }

    /// The tile written with the three characters `rank`, `suit`, `mark`.
    fn red_of(rank: char, suit: char, mark: char) -> (pai: Option<Pai>)
        ensures
            match pai {
                Some(p) => p.mjai() == seq![rank, suit, mark],
                None => forall|p: Pai| p.mjai() != seq![rank, suit, mark],
            },
    {
        let pai = match (rank, suit, mark) {
            ('5', 'm', 'r') => Some(Pai::AkaMan5),
            ('5', 'p', 'r') => Some(Pai::AkaPin5),
            ('5', 's', 'r') => Some(Pai::AkaSou5),
            _ => None,
        };
        proof {
            match pai {
                Some(p) => {
                    assert(p.mjai() =~= seq![rank, suit, mark]);
                },
                None => {
                    assert forall|p: Pai| p.mjai() != seq![rank, suit, mark] by {
                        Pai::lemma_mjai_shape(p);
                        if p.mjai().len() == 3 {
                            assert(seq![rank, suit, mark][0] == rank);
                            assert(seq![rank, suit, mark][1] == suit);
                            assert(seq![rank, suit, mark][2] == mark);
                        }
                    }
                },
            }
        }
        pai
    }

    /// A mnemonic has one, two or three characters, and they are the ones
    /// that the table gives.
    proof fn lemma_mjai_shape(pai: Pai)
        ensures
            1 <= pai.mjai().len() <= 3,
            pai.mjai().len() == 1 ==> pai.mjai() == seq![pai.mjai()[0]],
            pai.mjai().len() == 2 ==> pai.mjai() == seq![pai.mjai()[0], pai.mjai()[1]],
            pai.mjai().len() == 3 ==> pai.mjai() == seq![
                pai.mjai()[0],
                pai.mjai()[1],
                pai.mjai()[2],
            ],
    {
        let m = pai.mjai();
        if m.len() == 1 {
            assert(m =~= seq![m[0]]);
        } else if m.len() == 2 {
            assert(m =~= seq![m[0], m[1]]);
        } else {
            assert(m =~= seq![m[0], m[1], m[2]]);
        }
    }

    /// Both encodings read back to the tile they were written from: the
    /// numeric code, and the mnemonic, which no two tiles share.
    pub proof fn lemma_round_trip(pai: Pai)
        ensures
            Pai::from_code(pai.code()) == Some(pai),
            forall|other: Pai| other.mjai() == pai.mjai() ==> other == pai,
    {
        assert forall|other: Pai| other.mjai() == pai.mjai() implies other == pai by {
            let a = other.mjai();
            let b = pai.mjai();
            assert(a.len() == b.len());
            assert(a[0] == b[0]);
            if a.len() >= 2 {
                assert(a[1] == b[1]);
            }
        }
    }

    /// A numeric code stands for at most one tile, and that tile has the code.
    pub proof fn lemma_code_unique(code: u8)
        ensures
            forall|pai: Pai| Pai::from_code(code) == Some(pai) <==> pai.code() == code,
    {
        assert forall|pai: Pai| Pai::from_code(code) == Some(pai) <==> pai.code() == code by {
            Pai::lemma_round_trip(pai);
        }
    }
}

/// A numeric code that stands for no tile, with the code.
#[derive(Debug, Clone, Copy, PartialEq, Eq, Structural)]
pub struct InvalidCode {
    pub number: u8,
}

impl TryFrom<u8> for Pai {
    type Error = InvalidCode;

    /// Reads a numeric code, as [`Pai::from_u8`] does.
    #[inline]
    fn try_from(code: u8) -> (r: Result<Pai, InvalidCode>) {
        match Pai::from_u8(code) {
            Some(pai) => Ok(pai),
            None => Err(InvalidCode { number: code }),
        }
    }
}

impl vstd::std_specs::convert::TryFromSpecImpl<u8> for Pai {
    open spec fn obeys_try_from_spec() -> bool {
        true
    }

    open spec fn try_from_spec(code: u8) -> Result<Pai, InvalidCode> {
        match Pai::from_code(code) {
            Some(pai) => Ok(pai),
            None => Err(InvalidCode { number: code }),
        }
    }
}

impl Default for Pai {
    /// The placeholder tile.
    #[inline]
    fn default() -> (pai: Self)
        ensures
            pai == Pai::Unknown,
    {
        Pai::Unknown
    }
}

impl std::str::FromStr for Pai {
    type Err = ParseError;

    /// Reads a mnemonic, as [`Pai::from_mjai_str`] does: the tile whose
    /// mnemonic the text is, or the text back in an error when it is the
    /// mnemonic of no tile.
    #[inline]
    fn from_str(s: &str) -> (r: Result<Self, ParseError>)
        ensures
            match r {
                Ok(pai) => pai.mjai() == s@,
                Err(e) => e@ == s@ && forall|pai: Pai| pai.mjai() != s@,
            },
    {
        Pai::from_mjai_str(s)
    }
}

} // verus!
