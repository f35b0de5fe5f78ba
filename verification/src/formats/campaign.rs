//! The campaign: which level follows which.
//!
//! `GAME.POD` holds the levels in alphabetical order and nothing in a `.LVL`
//! says what comes next, so the order is the engine's. `0x482720` builds it
//! when a new game starts: twenty three entries, each a level's file name,
//! with the chapter and the mission within it.
//!
//! The first entry is `morbos.lvl`. The three `NETLVL` levels are not in it:
//! they are for network play and `netlvl.ini` lists them separately.

use vstd::prelude::*;
use crate::bytes::chars_of;
use crate::chars::{lower_seq, lower_chars, same_chars};

verus! {

/// One entry: the level's stem, which chapter it belongs to and which
/// mission of that chapter it is.
#[derive(Debug, Clone, Copy, PartialEq, Eq)]
pub struct Mission {
    pub stem: &'static str,
    pub chapter: u8,
    pub mission: u8,
}

pub fn m(stem: &'static str, chapter: u8, mission: u8) -> (r: Mission)
    ensures
        r == (Mission { stem, chapter, mission }),
{
    Mission { stem, chapter, mission }
}

pub const CAMPAIGN_LEN: usize = 23;

/// The stem of campaign entry `i`.
pub open spec fn stem(i: int) -> Seq<char> {
    if i == 0 { seq!['m', 'o', 'r', 'b', 'o', 's'] }
    else if i == 1 { seq!['m', 'o', 'r', 'b', 'o', 's', '2'] }
    else if i == 2 { seq!['m', 'o', 'r', 'b', 'o', 's', '3'] }
    else if i == 3 { seq!['f', 'l', 'o', 'a', 't'] }
    else if i == 4 { seq!['f', 'l', 'o', 'a', 't', '2'] }
    else if i == 5 { seq!['i', 'o', 'w', 'a', 'h'] }
    else if i == 6 { seq!['i', 'o', 'w', 'a', 'h', '2'] }
    else if i == 7 { seq!['i', 'o', 'w', 'a', 'h', '3'] }
    else if i == 8 { seq!['k', 'r', 'e', 'a', 's', 'h'] }
    else if i == 9 { seq!['k', 'r', 'e', 'a', 's', 'h', '2'] }
    else if i == 10 { seq!['k', 'r', 'e', 'a', 's', 'h', '3'] }
    else if i == 11 { seq!['j', 'u', 'r', 'a', 's', 'i', 'c'] }
    else if i == 12 { seq!['j', 'u', 'r', 'a', 's', 'i', 'c', '2'] }
    else if i == 13 { seq!['j', 'u', 'r', 'a', 's', 'i', 'c', '3'] }
    else if i == 14 { seq!['r', 'o', 'i', 'd'] }
    else if i == 15 { seq!['r', 'o', 'i', 'd', '2'] }
    else if i == 16 { seq!['r', 'o', 'i', 'd', '3'] }
    else if i == 17 { seq!['r', 'o', 'i', 'd', '4'] }
    else if i == 18 { seq!['h', 'o', 't', 'h'] }
    else if i == 19 { seq!['h', 'o', 't', 'h', '2'] }
    else if i == 20 { seq!['h', 'o', 't', 'h', '3'] }
    else if i == 21 { seq!['s', 'h', 'i', 'p'] }
    else if i == 22 { seq!['s', 'h', 'i', 'p', '2'] }
    else { Seq::empty() }
}

/// The chapter and mission of campaign entry `i`.
pub open spec fn chapter_mission(i: int) -> (u8, u8) {
    if i == 0 { (1, 1) }
    else if i == 1 { (1, 2) }
    else if i == 2 { (1, 3) }
    else if i == 3 { (2, 1) }
    else if i == 4 { (2, 2) }
    else if i == 5 { (3, 1) }
    else if i == 6 { (3, 2) }
    else if i == 7 { (3, 3) }
    else if i == 8 { (4, 1) }
    else if i == 9 { (4, 2) }
    else if i == 10 { (4, 3) }
    else if i == 11 { (5, 1) }
    else if i == 12 { (5, 2) }
    else if i == 13 { (5, 3) }
    else if i == 14 { (6, 1) }
    else if i == 15 { (6, 2) }
    else if i == 16 { (6, 3) }
    else if i == 17 { (6, 4) }
    else if i == 18 { (7, 1) }
    else if i == 19 { (7, 2) }
    else if i == 20 { (7, 3) }
    else if i == 21 { (8, 1) }
    else if i == 22 { (8, 2) }
    else { (0, 0) }
}

/// The campaign in order (`0x482720`).
pub fn campaign() -> (r: [Mission; 23])
    ensures
        forall|i: int| 0 <= i < 23 ==> (#[trigger] r@[i]).stem@ == stem(i)
            && (r@[i].chapter, r@[i].mission) == chapter_mission(i),
{
    proof {
        reveal_strlit("morbos");
        reveal_strlit("morbos2");
        reveal_strlit("morbos3");
        reveal_strlit("float");
        reveal_strlit("float2");
        reveal_strlit("iowah");
        reveal_strlit("iowah2");
        reveal_strlit("iowah3");
        reveal_strlit("kreash");
        reveal_strlit("kreash2");
        reveal_strlit("kreash3");
        reveal_strlit("jurasic");
        reveal_strlit("jurasic2");
        reveal_strlit("jurasic3");
        reveal_strlit("roid");
        reveal_strlit("roid2");
        reveal_strlit("roid3");
        reveal_strlit("roid4");
        reveal_strlit("hoth");
        reveal_strlit("hoth2");
        reveal_strlit("hoth3");
        reveal_strlit("ship");
        reveal_strlit("ship2");
    }
    let r = [
        Mission { stem: "morbos", chapter: 1, mission: 1 },
        Mission { stem: "morbos2", chapter: 1, mission: 2 },
        Mission { stem: "morbos3", chapter: 1, mission: 3 },
        Mission { stem: "float", chapter: 2, mission: 1 },
        Mission { stem: "float2", chapter: 2, mission: 2 },
        Mission { stem: "iowah", chapter: 3, mission: 1 },
        Mission { stem: "iowah2", chapter: 3, mission: 2 },
        Mission { stem: "iowah3", chapter: 3, mission: 3 },
        Mission { stem: "kreash", chapter: 4, mission: 1 },
        Mission { stem: "kreash2", chapter: 4, mission: 2 },
        Mission { stem: "kreash3", chapter: 4, mission: 3 },
        Mission { stem: "jurasic", chapter: 5, mission: 1 },
        Mission { stem: "jurasic2", chapter: 5, mission: 2 },
        Mission { stem: "jurasic3", chapter: 5, mission: 3 },
        Mission { stem: "roid", chapter: 6, mission: 1 },
        Mission { stem: "roid2", chapter: 6, mission: 2 },
        Mission { stem: "roid3", chapter: 6, mission: 3 },
        Mission { stem: "roid4", chapter: 6, mission: 4 },
        Mission { stem: "hoth", chapter: 7, mission: 1 },
        Mission { stem: "hoth2", chapter: 7, mission: 2 },
        Mission { stem: "hoth3", chapter: 7, mission: 3 },
        Mission { stem: "ship", chapter: 8, mission: 1 },
        Mission { stem: "ship2", chapter: 8, mission: 2 }
    ];
    r
}

/// The network levels, which are not part of the campaign (`0x504da4`).
pub fn network() -> (r: [&'static str; 3])
    ensures
        r@[0]@ == seq!['n', 'e', 't', 'l', 'v', 'l', '1'],
        r@[1]@ == seq!['n', 'e', 't', 'l', 'v', 'l', '2'],
        r@[2]@ == seq!['n', 'e', 't', 'l', 'v', 'l', '3'],
{
    proof {
        reveal_strlit("netlvl1");
        reveal_strlit("netlvl2");
        reveal_strlit("netlvl3");
    }
    ["netlvl1", "netlvl2", "netlvl3"]
}

/// Where the campaign starts.
pub fn first() -> (r: &'static str)
    ensures
        r@ == stem(0),
{
    proof {
        reveal_strlit("morbos");
    }
    "morbos"
}

/// Two names are the same name, case aside (`str::eq_ignore_ascii_case`).
pub open spec fn same_name(a: Seq<char>, b: Seq<char>) -> bool {
    lower_seq(a) == lower_seq(b)
}

/// Where a level sits in the campaign, if it is in it at all.
pub fn index_of(name: &str) -> (r: Option<usize>)
    ensures
        match r {
            Some(i) => i < 23 && same_name(stem(i as int), name@) && forall|j: int|
                0 <= j < i ==> !same_name(stem(j), name@),
            None => forall|j: int| 0 <= j < 23 ==> !same_name(stem(j), name@),
        },
{
    let table = campaign();
    let wanted = lower_chars(chars_of(name).as_slice());
    let mut i: usize = 0;
    while i < 23
        invariant
            i <= 23,
            wanted@ == lower_seq(name@),
            forall|k: int| 0 <= k < 23 ==> (#[trigger] table@[k]).stem@ == stem(k)
                && (table@[k].chapter, table@[k].mission) == chapter_mission(k),
            forall|j: int| 0 <= j < i ==> !same_name(stem(j), name@),
        decreases 23 - i,
    {
        let here = lower_chars(chars_of(table[i].stem).as_slice());
        if same_chars(here.as_slice(), wanted.as_slice()) {
            return Some(i);
        }
        i += 1;
    }
    None
}

/// What follows a level, wrapping round at the end; the first level for
/// anything not in the campaign.
pub fn after(name: &str) -> (r: &'static str)
    ensures
        ({
            let at = choose|i: int| 0 <= i < 23 && same_name(stem(i), name@) && forall|j: int|
                0 <= j < i ==> !same_name(stem(j), name@);
            if exists|i: int| 0 <= i < 23 && same_name(stem(i), name@) {
                r@ == stem((at + 1) % 23)
            } else {
                r@ == stem(0)
            }
        }),
{
    match index_of(name) {
        Some(at) => {
            let table = campaign();
            proof {
                let c = choose|i: int| 0 <= i < 23 && same_name(stem(i), name@) && forall|j: int|
                    0 <= j < i ==> !same_name(stem(j), name@);
                assert(0 <= at < 23 && same_name(stem(at as int), name@) && forall|j: int|
                    0 <= j < at ==> !same_name(stem(j), name@));
                if c < at {
                } else if c > at {
                    assert(!same_name(stem(at as int), name@));
                }
            }
            table[(at + 1) % 23].stem
        },
        None => first(),
    }
}

} // verus!
