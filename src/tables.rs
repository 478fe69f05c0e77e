//! Fixed lookup tables: roman numerals, their decimal values, and edition
//! keywords. They are plain functions of an index, so they never change.

use vstd::prelude::*;

verus! {

/// Number of entries in the roman numeral table.
pub const ROMAN_COUNT: usize = 20;

/// The roman numerals i to xx, lower case; entry `k` stands for `k + 1`.
pub open spec fn roman_text(k: int) -> Seq<char> {
    if k == 0 {
        "i"@
    } else if k == 1 {
        "ii"@
    } else if k == 2 {
        "iii"@
    } else if k == 3 {
        "iv"@
    } else if k == 4 {
        "v"@
    } else if k == 5 {
        "vi"@
    } else if k == 6 {
        "vii"@
    } else if k == 7 {
        "viii"@
    } else if k == 8 {
        "ix"@
    } else if k == 9 {
        "x"@
    } else if k == 10 {
        "xi"@
    } else if k == 11 {
        "xii"@
    } else if k == 12 {
        "xiii"@
    } else if k == 13 {
        "xiv"@
    } else if k == 14 {
        "xv"@
    } else if k == 15 {
        "xvi"@
    } else if k == 16 {
        "xvii"@
    } else if k == 17 {
        "xviii"@
    } else if k == 18 {
        "xix"@
    } else {
        "xx"@
    }
}

/// The decimal numerals 1 to 20; entry `k` is the value of `roman_text(k)`.
pub open spec fn arabic_text(k: int) -> Seq<char> {
    if k == 0 {
        "1"@
    } else if k == 1 {
        "2"@
    } else if k == 2 {
        "3"@
    } else if k == 3 {
        "4"@
    } else if k == 4 {
        "5"@
    } else if k == 5 {
        "6"@
    } else if k == 6 {
        "7"@
    } else if k == 7 {
        "8"@
    } else if k == 8 {
        "9"@
    } else if k == 9 {
        "10"@
    } else if k == 10 {
        "11"@
    } else if k == 11 {
        "12"@
    } else if k == 12 {
        "13"@
    } else if k == 13 {
        "14"@
    } else if k == 14 {
        "15"@
    } else if k == 15 {
        "16"@
    } else if k == 16 {
        "17"@
    } else if k == 17 {
        "18"@
    } else if k == 18 {
        "19"@
    } else {
        "20"@
    }
}

/// Entry `k` of the roman numeral table.
pub(crate) fn roman_numeral(k: usize) -> (r: &'static str)
    requires
        k < ROMAN_COUNT,
    ensures
        r@ == roman_text(k as int),
{
    match k {
        0 => "i",
        1 => "ii",
        2 => "iii",
        3 => "iv",
        4 => "v",
        5 => "vi",
        6 => "vii",
        7 => "viii",
        8 => "ix",
        9 => "x",
        10 => "xi",
        11 => "xii",
        12 => "xiii",
        13 => "xiv",
        14 => "xv",
        15 => "xvi",
        16 => "xvii",
        17 => "xviii",
        18 => "xix",
        _ => "xx",
    }
}

/// Entry `k` of the decimal numeral table.
pub(crate) fn arabic_numeral(k: usize) -> (r: &'static str)
    requires
        k < ROMAN_COUNT,
    ensures
        r@ == arabic_text(k as int),
{
    match k {
        0 => "1",
        1 => "2",
        2 => "3",
        3 => "4",
        4 => "5",
        5 => "6",
        6 => "7",
        7 => "8",
        8 => "9",
        9 => "10",
        10 => "11",
        11 => "12",
        12 => "13",
        13 => "14",
        14 => "15",
        15 => "16",
        16 => "17",
        17 => "18",
        18 => "19",
        _ => "20",
    }
}

/// Number of edition and add-on keywords.
pub const DLC_KEYWORD_COUNT: usize = 17;

/// Keywords that mark a re-release, an edition or an add-on.
pub open spec fn dlc_text(k: int) -> Seq<char> {
    if k == 0 {
        "goty"@
    } else if k == 1 {
        "definitive"@
    } else if k == 2 {
        "remaster"@
    } else if k == 3 {
        "remastered"@
    } else if k == 4 {
        "hd"@
    } else if k == 5 {
        "edition"@
    } else if k == 6 {
        "dlc"@
    } else if k == 7 {
        "season"@
    } else if k == 8 {
        "bundle"@
    } else if k == 9 {
        "trilogy"@
    } else if k == 10 {
        "collection"@
    } else if k == 11 {
        "enhanced"@
    } else if k == 12 {
        "complete"@
    } else if k == 13 {
        "ultimate"@
    } else if k == 14 {
        "deluxe"@
    } else if k == 15 {
        "premium"@
    } else {
        "gold"@
    }
}

/// Entry `k` of the keyword table.
pub(crate) fn dlc_keyword(k: usize) -> (r: &'static str)
    requires
        k < DLC_KEYWORD_COUNT,
    ensures
        r@ == dlc_text(k as int),
{
    match k {
        0 => "goty",
        1 => "definitive",
        2 => "remaster",
        3 => "remastered",
        4 => "hd",
        5 => "edition",
        6 => "dlc",
        7 => "season",
        8 => "bundle",
        9 => "trilogy",
        10 => "collection",
        11 => "enhanced",
        12 => "complete",
        13 => "ultimate",
        14 => "deluxe",
        15 => "premium",
        _ => "gold",
    }
}

} // verus!
