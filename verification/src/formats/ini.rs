//! `system/hellbend.ini`, and the `[Control]` section in particular.
//!
//! The engine reads its settings with `GetPrivateProfileInt` out of
//! `.\\system\\hellbend.ini` (`0x502ab0`), passing the setting's current value
//! as the default - so the defaults are the globals' initial values, and a
//! machine with no `.INI` plays with exactly those.
//!
//! Every binding is a set 1 keyboard scan code, which is what `.DMO` files
//! record too.

use vstd::prelude::*;
use crate::bytes::{chars_of, string_of};
use crate::chars::{index_from, lower_seq, lower_chars, find_char, lemma_index_from};
use crate::text_core::{split, trim, trim_chars, parse_int, parse_i64_chars, lemma_split_nonempty, split_chars};

verus! {

/// Where the key bindings live.
pub const CONTROL: &'static str = "Control";

pub open spec fn control_word() -> Seq<char> {
    seq!['C', 'o', 'n', 't', 'r', 'o', 'l']
}

pub const CONTROL_DEFAULTS_LEN: usize = 64;

/// The name of binding `i` in `[Control]`, in the engine's table order
/// (`0x42d274` on, reading each global at `0x512758` and up).
pub open spec fn control_name(i: int) -> Seq<char> {
    if i == 0 { seq!['w', 'e', 'a', 'p', 'o', 'n', 'K', 'e', 'y'] }
    else if i == 1 { seq!['f', 'i', 'r', 'e', 'K', 'e', 'y'] }
    else if i == 2 { seq!['l', 'e', 'f', 't', 'K', 'e', 'y'] }
    else if i == 3 { seq!['r', 'i', 'g', 'h', 't', 'K', 'e', 'y'] }
    else if i == 4 { seq!['u', 'p', 'K', 'e', 'y'] }
    else if i == 5 { seq!['d', 'o', 'w', 'n', 'K', 'e', 'y'] }
    else if i == 6 { seq!['r', 'o', 'l', 'l', 'L', 'e', 'f', 't', 'K', 'e', 'y'] }
    else if i == 7 { seq!['r', 'o', 'l', 'l', 'R', 'i', 'g', 'h', 't', 'K', 'e', 'y'] }
    else if i == 8 { seq!['t', 'h', 'r', 'o', 't', 't', 'l', 'e', 'U', 'p', 'K', 'e', 'y'] }
    else if i == 9 { seq!['t', 'h', 'r', 'o', 't', 't', 'l', 'e', 'D', 'o', 'w', 'n', 'K', 'e', 'y'] }
    else if i == 10 { seq!['k', 'e', 'y', 'C', 'l', 'o', 'a', 'k'] }
    else if i == 11 { seq!['k', 'e', 'y', 'M', 'i', 's', 's', 'i', 'l', 'e', 'L', 'o', 'c', 'k'] }
    else if i == 12 { seq!['k', 'e', 'y', 'B', 'e', 'a', 'c', 'o', 'n'] }
    else if i == 13 { seq!['k', 'e', 'y', 'H', 'e', 'a', 'd', 'l', 'i', 'g', 'h', 't'] }
    else if i == 14 { seq!['k', 'e', 'y', 'N', 'a', 'v', 'i', 'C', 'o', 'm', 'p'] }
    else if i == 15 { seq!['k', 'e', 'y', 'N', 'a', 'v', 'C', 'h', 'o', 'o', 's', 'e'] }
    else if i == 16 { seq!['k', 'e', 'y', 'M', 'a', 'p'] }
    else if i == 17 { seq!['k', 'e', 'y', 'M', 'a', 'p', 'Z', 'o', 'o', 'm', 'I', 'n'] }
    else if i == 18 { seq!['k', 'e', 'y', 'M', 'a', 'p', 'Z', 'o', 'o', 'm', 'O', 'u', 't'] }
    else if i == 19 { seq!['k', 'e', 'y', 'T', 'r', 'a', 'n', 's', 'f', 'e', 'r', 'W', 'e', 'a', 'p', 'o', 'n'] }
    else if i == 20 { seq!['k', 'e', 'y', 'T', 'r', 'a', 'n', 's', 'f', 'e', 'r', 'S', 'h', 'i', 'e', 'l', 'd', 's'] }
    else if i == 21 { seq!['k', 'e', 'y', 'C', 'r', 'o', 's', 's', 'h', 'a', 'i', 'r'] }
    else if i == 22 { seq!['k', 'e', 'y', 'V', 'u', 'l', 'c', 'a', 'n', 'C', 'a', 'n', 'n', 'o', 'n'] }
    else if i == 23 { seq!['k', 'e', 'y', 'D', 'i', 's', 'p', 'e', 'r', 's', 'i', 'o', 'n', 'C', 'a', 'n', 'n', 'o', 'n'] }
    else if i == 24 { seq!['k', 'e', 'y', 'S', 'K', 'L'] }
    else if i == 25 { seq!['k', 'e', 'y', 'R', 'F', 'L', '2', '0'] }
    else if i == 26 { seq!['k', 'e', 'y', 'D', 'O', 'M'] }
    else if i == 27 { seq!['k', 'e', 'y', 'C', 'r', 'u', 'i', 's', 'e', 'M', 'i', 's', 's', 'i', 'l', 'e'] }
    else if i == 28 { seq!['k', 'e', 'y', 'V', 'i', 'p', 'e', 'r', 'M', 'i', 's', 's', 'i', 'l', 'e'] }
    else if i == 29 { seq!['k', 'e', 'y', 'C', 'l', 'u', 's', 't', 'e', 'r', 'M', 'i', 's', 's', 'i', 'l', 'e'] }
    else if i == 30 { seq!['k', 'e', 'y', 'M', 'I', 'R', 'V', 'M', 'i', 's', 's', 'i', 'l', 'e'] }
    else if i == 31 { seq!['k', 'e', 'y', 'G', 'u', 'i', 'd', 'e', 'd', 'M', 'I', 'R', 'V'] }
    else if i == 32 { seq!['k', 'e', 'y', 'M', 'i', 'n', 'e'] }
    else if i == 33 { seq!['k', 'e', 'y', 'S', 'e', 'l', 'e', 'c', 't', 'P', 'r', 'e', 'v', 'W', 'e', 'a', 'p', 'o', 'n'] }
    else if i == 34 { seq!['k', 'e', 'y', 'S', 'e', 'l', 'e', 'c', 't', 'N', 'e', 'x', 't', 'W', 'e', 'a', 'p', 'o', 'n'] }
    else if i == 35 { seq!['k', 'e', 'y', 'C', 'h', 'a', 'n', 'g', 'e', 'V', 'i', 'e', 'w', 's'] }
    else if i == 36 { seq!['k', 'e', 'y', 'I', 'n', 's', 't', 'r', 'u', 'm', 'e', 'n', 't'] }
    else if i == 37 { seq!['k', 'e', 'y', 'M', 'u', 'l', 't', 'i', 'T', 'a', 'l', 'k'] }
    else if i == 38 { seq!['k', 'e', 'y', 'M', 'u', 'l', 't', 'i', 'T', 'a', 'u', 'n', 't', '1'] }
    else if i == 39 { seq!['k', 'e', 'y', 'M', 'u', 'l', 't', 'i', 'T', 'a', 'u', 'n', 't', '2'] }
    else if i == 40 { seq!['k', 'e', 'y', 'M', 'u', 'l', 't', 'i', 'T', 'a', 'u', 'n', 't', '3'] }
    else if i == 41 { seq!['k', 'e', 'y', 'M', 'u', 'l', 't', 'i', 'T', 'a', 'u', 'n', 't', '4'] }
    else if i == 42 { seq!['k', 'e', 'y', 'M', 'u', 'l', 't', 'i', 'T', 'a', 'u', 'n', 't', '5'] }
    else if i == 43 { seq!['k', 'e', 'y', 'M', 'u', 'l', 't', 'i', 'T', 'a', 'u', 'n', 't', '6'] }
    else if i == 44 { seq!['k', 'e', 'y', 'M', 'u', 'l', 't', 'i', 'T', 'a', 'u', 'n', 't', '7'] }
    else if i == 45 { seq!['k', 'e', 'y', 'E', 'n', 'd', 'G', 'a', 'm', 'e'] }
    else if i == 46 { seq!['k', 'e', 'y', 'V', 'i', 'e', 'w', 'L', 'e', 'f', 't'] }
    else if i == 47 { seq!['k', 'e', 'y', 'V', 'i', 'e', 'w', 'R', 'i', 'g', 'h', 't'] }
    else if i == 48 { seq!['k', 'e', 'y', 'V', 'i', 'e', 'w', 'F', 'o', 'r', 'w', 'a', 'r', 'd'] }
    else if i == 49 { seq!['k', 'e', 'y', 'V', 'i', 'e', 'w', 'B', 'a', 'c', 'k'] }
    else if i == 50 { seq!['k', 'e', 'y', 'C', 'o', 'c', 'k', 'p', 'i', 't', 'L', 'a', 'b', 'e', 'l'] }
    else if i == 51 { seq!['b', 'u', 't', 't', 'o', 'n', 'F', 'i', 'r', 'e'] }
    else if i == 52 { seq!['b', 'u', 't', 't', 'o', 'n', 'W', 'e', 'a', 'p', 'o', 'n'] }
    else if i == 53 { seq!['b', 'u', 't', 't', 'o', 'n', 'T', 'h', 'r', 'o', 't', 't', 'l', 'e', 'U', 'p'] }
    else if i == 54 { seq!['b', 'u', 't', 't', 'o', 'n', 'T', 'h', 'r', 'o', 't', 't', 'l', 'e', 'D', 'o', 'w', 'n'] }
    else if i == 55 { seq!['b', 'u', 't', 't', 'o', 'n', 'F', 'u', 'n', 'c', 't', 'i', 'o', 'n', '0'] }
    else if i == 56 { seq!['b', 'u', 't', 't', 'o', 'n', 'F', 'u', 'n', 'c', 't', 'i', 'o', 'n', '1'] }
    else if i == 57 { seq!['b', 'u', 't', 't', 'o', 'n', 'F', 'u', 'n', 'c', 't', 'i', 'o', 'n', '2'] }
    else if i == 58 { seq!['b', 'u', 't', 't', 'o', 'n', 'F', 'u', 'n', 'c', 't', 'i', 'o', 'n', '3'] }
    else if i == 59 { seq!['b', 'u', 't', 't', 'o', 'n', 'F', 'u', 'n', 'c', 't', 'i', 'o', 'n', '4'] }
    else if i == 60 { seq!['b', 'u', 't', 't', 'o', 'n', 'F', 'u', 'n', 'c', 't', 'i', 'o', 'n', '5'] }
    else if i == 61 { seq!['b', 'u', 't', 't', 'o', 'n', 'F', 'u', 'n', 'c', 't', 'i', 'o', 'n', '6'] }
    else if i == 62 { seq!['b', 'u', 't', 't', 'o', 'n', 'F', 'u', 'n', 'c', 't', 'i', 'o', 'n', '7'] }
    else if i == 63 { seq!['j', 'o', 'y', 's', 't', 'i', 'c', 'k', 'A', 'c', 't', 'i', 'v', 'e'] }
    else { Seq::empty() }
}

/// The value the engine starts binding `i` at.
pub open spec fn control_value(i: int) -> u8 {
    if i == 0 { 33 }
    else if i == 1 { 57 }
    else if i == 2 { 75 }
    else if i == 3 { 77 }
    else if i == 4 { 72 }
    else if i == 5 { 80 }
    else if i == 6 { 71 }
    else if i == 7 { 73 }
    else if i == 8 { 45 }
    else if i == 9 { 44 }
    else if i == 10 { 46 }
    else if i == 11 { 47 }
    else if i == 12 { 48 }
    else if i == 13 { 38 }
    else if i == 14 { 49 }
    else if i == 15 { 15 }
    else if i == 16 { 50 }
    else if i == 17 { 26 }
    else if i == 18 { 27 }
    else if i == 19 { 51 }
    else if i == 20 { 52 }
    else if i == 21 { 20 }
    else if i == 22 { 41 }
    else if i == 23 { 2 }
    else if i == 24 { 3 }
    else if i == 25 { 4 }
    else if i == 26 { 5 }
    else if i == 27 { 6 }
    else if i == 28 { 7 }
    else if i == 29 { 8 }
    else if i == 30 { 9 }
    else if i == 31 { 10 }
    else if i == 32 { 11 }
    else if i == 33 { 12 }
    else if i == 34 { 13 }
    else if i == 35 { 24 }
    else if i == 36 { 23 }
    else if i == 37 { 63 }
    else if i == 38 { 64 }
    else if i == 39 { 65 }
    else if i == 40 { 66 }
    else if i == 41 { 67 }
    else if i == 42 { 87 }
    else if i == 43 { 88 }
    else if i == 44 { 68 }
    else if i == 45 { 1 }
    else if i == 46 { 82 }
    else if i == 47 { 83 }
    else if i == 48 { 74 }
    else if i == 49 { 78 }
    else if i == 50 { 53 }
    else if i == 51 { 1 }
    else if i == 52 { 2 }
    else if i == 53 { 8 }
    else if i == 54 { 4 }
    else if i == 55 { 1 }
    else if i == 56 { 0 }
    else if i == 57 { 8 }
    else if i == 58 { 9 }
    else if i == 59 { 33 }
    else if i == 60 { 34 }
    else if i == 61 { 20 }
    else if i == 62 { 19 }
    else if i == 63 { 0 }
    else { 0 }
}

/// Every binding in `[Control]`, with the value the engine starts it at.
///
/// The run from ` to 0 is the weapon keys in table order, which is how the
/// player-facing weapon list was worked out in the first place.
pub fn control_defaults() -> (r: [(&'static str, u8); 64])
    ensures
        forall|i: int| 0 <= i < 64 ==> (#[trigger] r@[i]).0@ == control_name(i) && r@[i].1 == control_value(i),
{
    proof {
        reveal_strlit("weaponKey");
        reveal_strlit("fireKey");
        reveal_strlit("leftKey");
        reveal_strlit("rightKey");
        reveal_strlit("upKey");
        reveal_strlit("downKey");
        reveal_strlit("rollLeftKey");
        reveal_strlit("rollRightKey");
        reveal_strlit("throttleUpKey");
        reveal_strlit("throttleDownKey");
        reveal_strlit("keyCloak");
        reveal_strlit("keyMissileLock");
        reveal_strlit("keyBeacon");
        reveal_strlit("keyHeadlight");
        reveal_strlit("keyNaviComp");
        reveal_strlit("keyNavChoose");
        reveal_strlit("keyMap");
        reveal_strlit("keyMapZoomIn");
        reveal_strlit("keyMapZoomOut");
        reveal_strlit("keyTransferWeapon");
        reveal_strlit("keyTransferShields");
        reveal_strlit("keyCrosshair");
        reveal_strlit("keyVulcanCannon");
        reveal_strlit("keyDispersionCannon");
        reveal_strlit("keySKL");
        reveal_strlit("keyRFL20");
        reveal_strlit("keyDOM");
        reveal_strlit("keyCruiseMissile");
        reveal_strlit("keyViperMissile");
        reveal_strlit("keyClusterMissile");
        reveal_strlit("keyMIRVMissile");
        reveal_strlit("keyGuidedMIRV");
        reveal_strlit("keyMine");
        reveal_strlit("keySelectPrevWeapon");
        reveal_strlit("keySelectNextWeapon");
        reveal_strlit("keyChangeViews");
        reveal_strlit("keyInstrument");
        reveal_strlit("keyMultiTalk");
        reveal_strlit("keyMultiTaunt1");
        reveal_strlit("keyMultiTaunt2");
        reveal_strlit("keyMultiTaunt3");
        reveal_strlit("keyMultiTaunt4");
        reveal_strlit("keyMultiTaunt5");
        reveal_strlit("keyMultiTaunt6");
        reveal_strlit("keyMultiTaunt7");
        reveal_strlit("keyEndGame");
        reveal_strlit("keyViewLeft");
        reveal_strlit("keyViewRight");
        reveal_strlit("keyViewForward");
        reveal_strlit("keyViewBack");
        reveal_strlit("keyCockpitLabel");
        reveal_strlit("buttonFire");
        reveal_strlit("buttonWeapon");
        reveal_strlit("buttonThrottleUp");
        reveal_strlit("buttonThrottleDown");
        reveal_strlit("buttonFunction0");
        reveal_strlit("buttonFunction1");
        reveal_strlit("buttonFunction2");
        reveal_strlit("buttonFunction3");
        reveal_strlit("buttonFunction4");
        reveal_strlit("buttonFunction5");
        reveal_strlit("buttonFunction6");
        reveal_strlit("buttonFunction7");
        reveal_strlit("joystickActive");
    }
    [
        ("weaponKey", 33),
        ("fireKey", 57),
        ("leftKey", 75),
        ("rightKey", 77),
        ("upKey", 72),
        ("downKey", 80),
        ("rollLeftKey", 71),
        ("rollRightKey", 73),
        ("throttleUpKey", 45),
        ("throttleDownKey", 44),
        ("keyCloak", 46),
        ("keyMissileLock", 47),
        ("keyBeacon", 48),
        ("keyHeadlight", 38),
        ("keyNaviComp", 49),
        ("keyNavChoose", 15),
        ("keyMap", 50),
        ("keyMapZoomIn", 26),
        ("keyMapZoomOut", 27),
        ("keyTransferWeapon", 51),
        ("keyTransferShields", 52),
        ("keyCrosshair", 20),
        ("keyVulcanCannon", 41),
        ("keyDispersionCannon", 2),
        ("keySKL", 3),
        ("keyRFL20", 4),
        ("keyDOM", 5),
        ("keyCruiseMissile", 6),
        ("keyViperMissile", 7),
        ("keyClusterMissile", 8),
        ("keyMIRVMissile", 9),
        ("keyGuidedMIRV", 10),
        ("keyMine", 11),
        ("keySelectPrevWeapon", 12),
        ("keySelectNextWeapon", 13),
        ("keyChangeViews", 24),
        ("keyInstrument", 23),
        ("keyMultiTalk", 63),
        ("keyMultiTaunt1", 64),
        ("keyMultiTaunt2", 65),
        ("keyMultiTaunt3", 66),
        ("keyMultiTaunt4", 67),
        ("keyMultiTaunt5", 87),
        ("keyMultiTaunt6", 88),
        ("keyMultiTaunt7", 68),
        ("keyEndGame", 1),
        ("keyViewLeft", 82),
        ("keyViewRight", 83),
        ("keyViewForward", 74),
        ("keyViewBack", 78),
        ("keyCockpitLabel", 53),
        ("buttonFire", 1),
        ("buttonWeapon", 2),
        ("buttonThrottleUp", 8),
        ("buttonThrottleDown", 4),
        ("buttonFunction0", 1),
        ("buttonFunction1", 0),
        ("buttonFunction2", 8),
        ("buttonFunction3", 9),
        ("buttonFunction4", 33),
        ("buttonFunction5", 34),
        ("buttonFunction6", 20),
        ("buttonFunction7", 19),
        ("joystickActive", 0)
    ]
}

/// The first binding named `key`, exactly.
pub open spec fn default_of(key: Seq<char>) -> Option<u8> {
    if exists|i: int| 0 <= i < 64 && control_name(i) == key {
        let i = choose|i: int| 0 <= i < 64 && control_name(i) == key && forall|j: int| 0 <= j < i ==> control_name(j) != key;
        Some(control_value(i))
    } else {
        None
    }
}

/// The engine's default for a binding, for a game with no `.INI` at all.
pub fn default_binding(key: &str) -> (r: Option<u8>)
    ensures
        r == default_of(key@),
{
    let table = control_defaults();
    let k = chars_of(key);
    let mut i: usize = 0;
    while i < 64
        invariant
            i <= 64,
            k@ == key@,
            forall|j: int| 0 <= j < 64 ==> (#[trigger] table@[j]).0@ == control_name(j) && table@[j].1 == control_value(j),
            forall|j: int| 0 <= j < i ==> control_name(j) != key@,
        decreases 64 - i,
    {
        let n = chars_of(table[i].0);
        if same(n.as_slice(), k.as_slice()) {
            proof {
                let c = choose|c: int| 0 <= c < 64 && control_name(c) == key@ && forall|j: int| 0 <= j < c ==> control_name(j) != key@;
                assert(0 <= i < 64 && control_name(i as int) == key@ && forall|j: int| 0 <= j < i ==> control_name(j) != key@);
                if c > i {
                    assert(control_name(i as int) != key@);
                }
            }
            return Some(table[i].1);
        }
        i += 1;
    }
    None
}

fn same(a: &[char], b: &[char]) -> (r: bool)
    ensures
        r == (a@ == b@),
{
    if a.len() != b.len() {
        return false;
    }
    let mut i: usize = 0;
    while i < a.len()
        invariant
            i <= a@.len(),
            a@.len() == b@.len(),
            forall|k: int| 0 <= k < i ==> a@[k] == b@[k],
        decreases a@.len() - i,
    {
        if a[i] != b[i] {
            return false;
        }
        i += 1;
    }
    assert(a@ =~= b@);
    true
}

pub open spec fn strip_cr(l: Seq<char>) -> Seq<char> {
    if l.len() > 0 && l.last() == '\r' { l.drop_last() } else { l }
}

/// `str::lines`: split at each newline, a carriage return before a newline
/// dropped with it, and no empty last line for a final newline.
pub open spec fn str_lines(s: Seq<char>) -> Seq<Seq<char>> {
    let p = split(s, '\n');
    let q = Seq::new(p.len(), |i: int| if i < p.len() - 1 { strip_cr(p[i]) } else { p[i] });
    if p.last().len() == 0 { q.drop_last() } else { q }
}

/// One setting: its section and key, lower-cased, and its value.
pub type Setting = (Seq<char>, Seq<char>, Seq<char>);

/// What one line does to the settings read so far and the current section.
pub open spec fn ini_line(state: (Seq<Setting>, Seq<char>), line: Seq<char>) -> (Seq<Setting>, Seq<char>) {
    let l = trim(line);
    let (entries, section) = state;
    if l.len() == 0 || l[0] == ';' || l[0] == '#' {
        state
    } else if l.len() >= 2 && l[0] == '[' && l.last() == ']' {
        (entries, lower_seq(trim(l.subrange(1, l.len() - 1))))
    } else {
        let k = index_from(l, '=', 0);
        if k < l.len() {
            (entries.push((section, lower_seq(trim(l.take(k))), trim(l.skip(k + 1)))), section)
        } else {
            state
        }
    }
}

pub open spec fn ini_fold(lines: Seq<Seq<char>>) -> (Seq<Setting>, Seq<char>)
    decreases lines.len(),
{
    if lines.len() == 0 {
        (Seq::empty(), Seq::empty())
    } else {
        ini_line(ini_fold(lines.drop_last()), lines.last())
    }
}

/// Every `key = value` line of a file, with the section it sits in.
pub open spec fn settings_of(text: Seq<char>) -> Seq<Setting> {
    ini_fold(str_lines(text)).0
}

/// What a setting is set to, from the file if it says and from
/// [`control_defaults`] if it does not.
#[derive(Debug, Clone, Default)]
pub struct Ini {
    entries: Vec<(String, String, String)>,
}

pub open spec fn setting_view(e: (String, String, String)) -> Setting {
    (e.0@, e.1@, e.2@)
}

impl Ini {
    pub closed spec fn settings(&self) -> Seq<Setting> {
        self.entries@.map_values(|e: (String, String, String)| setting_view(e))
    }

    /// Parse the whole file. Unreadable lines are skipped rather than
    /// refused: the engine's own reader takes what it understands.
    pub fn parse(text: &str) -> (r: Ini)
        ensures
            r.settings() == settings_of(text@),
    {
        let chars = chars_of(text);
        let lines = text_lines_of(chars.as_slice());
        let mut entries: Vec<(String, String, String)> = Vec::new();
        let mut section: Vec<char> = Vec::new();
        let mut i: usize = 0;
        while i < lines.len()
            invariant
                i <= lines@.len(),
                lines@.len() == str_lines(text@).len(),
                forall|k: int| 0 <= k < lines@.len() ==> #[trigger] lines@[k]@ == str_lines(text@)[k],
                ini_fold(str_lines(text@).take(i as int)) == (
                    entries@.map_values(|e: (String, String, String)| setting_view(e)),
                    section@,
                ),
            decreases lines@.len() - i,
        {
            let ghost before = entries@;
            proof {
                assert(str_lines(text@).take(i + 1).drop_last() =~= str_lines(text@).take(i as int));
            }
            let l = trim_chars(lines[i].as_slice());
            let n = l.len();
            if n == 0 || l[0] == ';' || l[0] == '#' {
            } else if n >= 2 && l[0] == '[' && l[n - 1] == ']' {
                let inner = trim_chars(&l.as_slice()[1..n - 1]);
                section = lower_chars(inner.as_slice());
            } else {
                let k = find_char(l.as_slice(), '=', 0);
                proof {
                    lemma_index_from(l@, '=', 0);
                }
                if k < n {
                    let key = lower_chars(trim_chars(&l.as_slice()[0..k]).as_slice());
                    let value = trim_chars(&l.as_slice()[k + 1..n]);
                    let entry = (string_of(section.as_slice()), string_of(key.as_slice()), string_of(value.as_slice()));
                    entries.push(entry);
                    proof {
                        assert(l@.subrange(0, k as int) =~= l@.take(k as int));
                        assert(l@.subrange(k + 1, n as int) =~= l@.skip(k + 1));
                        assert(entries@.map_values(|e: (String, String, String)| setting_view(e)) =~= before.map_values(
                            |e: (String, String, String)| setting_view(e)).push(setting_view(entry)));
                    }
                }
            }
            i += 1;
        }
        proof {
            assert(str_lines(text@).take(i as int) =~= str_lines(text@));
        }
        Ini { entries }
    }

    /// What `key` is set to in `section`, both named in any case: the first
    /// such line.
    pub fn get(&self, section: &str, key: &str) -> (r: Option<&str>)
        ensures
            match r {
                Some(v) => exists|i: int| 0 <= i < self.settings().len() && self.found_at(i, section@, key@)
                    && v@ == self.settings()[i].2 && forall|j: int| 0 <= j < i ==> !self.found_at(j, section@, key@),
                None => forall|i: int| 0 <= i < self.settings().len() ==> !self.found_at(i, section@, key@),
            },
    {
        let s = lower_chars(chars_of(section).as_slice());
        let k = lower_chars(chars_of(key).as_slice());
        let mut i: usize = 0;
        while i < self.entries.len()
            invariant
                i <= self.entries@.len(),
                s@ == lower_seq(section@),
                k@ == lower_seq(key@),
                forall|j: int| 0 <= j < i ==> !self.found_at(j, section@, key@),
            decreases self.entries@.len() - i,
        {
            let e = &self.entries[i];
            let es = chars_of(e.0.as_str());
            let ek = chars_of(e.1.as_str());
            if same(es.as_slice(), s.as_slice()) && same(ek.as_slice(), k.as_slice()) {
                proof {
                    assert(self.settings()[i as int] == setting_view(self.entries@[i as int]));
                    assert(self.found_at(i as int, section@, key@));
                }
                return Some(e.2.as_str());
            }
            proof {
                assert(self.settings()[i as int] == setting_view(self.entries@[i as int]));
            }
            i += 1;
        }
        None
    }

    pub open spec fn found_at(&self, i: int, section: Seq<char>, key: Seq<char>) -> bool {
        &&& self.settings()[i].0 == lower_seq(section)
        &&& self.settings()[i].1 == lower_seq(key)
    }

    /// What the first such line says, as the value the lookup gives.
    pub open spec fn lookup(&self, section: Seq<char>, key: Seq<char>) -> Option<Seq<char>> {
        if exists|i: int| 0 <= i < self.settings().len() && self.found_at(i, section, key) {
            let i = choose|i: int| 0 <= i < self.settings().len() && self.found_at(i, section, key)
                && forall|j: int| 0 <= j < i ==> !self.found_at(j, section, key);
            Some(self.settings()[i].2)
        } else {
            None
        }
    }

    /// A whole number, the way `GetPrivateProfileInt` reads one.
    pub fn integer(&self, section: &str, key: &str) -> (r: Option<i64>)
        ensures
            r == match self.lookup(section@, key@) {
                Some(v) => parse_int(trim(v)),
                None => None,
            },
    {
        match self.get(section, key) {
            Some(v) => {
                proof {
                    let c = choose|i: int| 0 <= i < self.settings().len() && self.found_at(i, section@, key@)
                        && forall|j: int| 0 <= j < i ==> !self.found_at(j, section@, key@);
                    let w = choose|i: int| 0 <= i < self.settings().len() && self.found_at(i, section@, key@)
                        && v@ == self.settings()[i].2 && forall|j: int| 0 <= j < i ==> !self.found_at(j, section@, key@);
                    if c < w {} else if w < c {}
                    assert(c == w);
                }
                let t = trim_chars(chars_of(v).as_slice());
                parse_i64_chars(t.as_slice())
            },
            None => None,
        }
    }

    /// One binding: the file's value if it has one and it fits in a scan
    /// code, the engine's default otherwise.
    pub fn binding(&self, key: &str) -> (r: Option<u8>)
        ensures
            r == match (match self.lookup(control_word(), key@) {
                Some(v) => parse_int(trim(v)),
                None => None,
            }) {
                Some(v) => if 0 <= v <= 255 { Some(v as u8) } else { default_of(key@) },
                None => default_of(key@),
            },
    {
        let default = default_binding(key);
        let control: &str = "Control";
        proof {
            reveal_strlit("Control");
            assert(control@ =~= control_word());
        }
        match self.integer(control, key) {
            Some(v) => if v >= 0 && v <= 255 { Some(v as u8) } else { default },
            None => default,
        }
    }
}

/// The lines of a text, as `str::lines` gives them.
fn text_lines_of(s: &[char]) -> (r: Vec<Vec<char>>)
    ensures
        r@.len() == str_lines(s@).len(),
        forall|k: int| 0 <= k < r@.len() ==> #[trigger] r@[k]@ == str_lines(s@)[k],
{
    let p = split_chars(s, '\n');
    proof {
        lemma_split_nonempty(s@, '\n');
    }
    let n = p.len();
    let keep = if p[n - 1].len() == 0 { n - 1 } else { n };
    let mut out: Vec<Vec<char>> = Vec::new();
    let mut i: usize = 0;
    while i < keep
        invariant
            i <= keep,
            keep <= n,
            n == p@.len(),
            n == split(s@, '\n').len(),
            forall|k: int| 0 <= k < n ==> #[trigger] p@[k]@ == split(s@, '\n')[k],
            keep == (if split(s@, '\n').last().len() == 0 { n - 1 } else { n as int }),
            out@.len() == i,
            forall|k: int| 0 <= k < i ==> #[trigger] out@[k]@ == str_lines(s@)[k],
        decreases keep - i,
    {
        let piece = p[i].as_slice();
        let line = if i < n - 1 && piece.len() > 0 && piece[piece.len() - 1] == '\r' {
            vstd::slice::slice_to_vec(&piece[0..piece.len() - 1])
        } else {
            vstd::slice::slice_to_vec(piece)
        };
        proof {
            if i < n - 1 && piece@.len() > 0 && piece@[piece@.len() - 1] == '\r' {
                assert(line@ =~= piece@.drop_last());
            }
        }
        out.push(line);
        i += 1;
    }
    out
}

} // verus!
