//! Glyph names of the standard Latin text fonts and their Unicode values.

use vstd::prelude::*;

verus! {

pub open spec fn glyph_group_0(n: Seq<char>) -> Option<char> {
    if n.len() == 5 && n[0] == 's' && n[1] == 'p' && n[2] == 'a' && n[3] == 'c' && n[4] == 'e' {
        Some('\u{20}')
    } else if n.len() == 6 && n[0] == 'e' && n[1] == 'x' && n[2] == 'c' && n[3] == 'l' && n[4] == 'a' && n[5] == 'm' {
        Some('\u{21}')
    } else if n.len() == 8 && n[0] == 'q' && n[1] == 'u' && n[2] == 'o' && n[3] == 't' && n[4] == 'e' && n[5] == 'd' && n[6] == 'b' && n[7] == 'l' {
        Some('\u{22}')
    } else if n.len() == 10 && n[0] == 'n' && n[1] == 'u' && n[2] == 'm' && n[3] == 'b' && n[4] == 'e' && n[5] == 'r' && n[6] == 's' && n[7] == 'i' && n[8] == 'g' && n[9] == 'n' {
        Some('\u{23}')
    } else if n.len() == 6 && n[0] == 'd' && n[1] == 'o' && n[2] == 'l' && n[3] == 'l' && n[4] == 'a' && n[5] == 'r' {
        Some('\u{24}')
    } else if n.len() == 7 && n[0] == 'p' && n[1] == 'e' && n[2] == 'r' && n[3] == 'c' && n[4] == 'e' && n[5] == 'n' && n[6] == 't' {
        Some('\u{25}')
    } else if n.len() == 9 && n[0] == 'a' && n[1] == 'm' && n[2] == 'p' && n[3] == 'e' && n[4] == 'r' && n[5] == 's' && n[6] == 'a' && n[7] == 'n' && n[8] == 'd' {
        Some('\u{26}')
    } else if n.len() == 11 && n[0] == 'q' && n[1] == 'u' && n[2] == 'o' && n[3] == 't' && n[4] == 'e' && n[5] == 's' && n[6] == 'i' && n[7] == 'n' && n[8] == 'g' && n[9] == 'l' && n[10] == 'e' {
        Some('\u{27}')
    } else if n.len() == 9 && n[0] == 'p' && n[1] == 'a' && n[2] == 'r' && n[3] == 'e' && n[4] == 'n' && n[5] == 'l' && n[6] == 'e' && n[7] == 'f' && n[8] == 't' {
        Some('\u{28}')
    } else if n.len() == 10 && n[0] == 'p' && n[1] == 'a' && n[2] == 'r' && n[3] == 'e' && n[4] == 'n' && n[5] == 'r' && n[6] == 'i' && n[7] == 'g' && n[8] == 'h' && n[9] == 't' {
        Some('\u{29}')
    } else if n.len() == 8 && n[0] == 'a' && n[1] == 's' && n[2] == 't' && n[3] == 'e' && n[4] == 'r' && n[5] == 'i' && n[6] == 's' && n[7] == 'k' {
        Some('\u{2A}')
    } else if n.len() == 4 && n[0] == 'p' && n[1] == 'l' && n[2] == 'u' && n[3] == 's' {
        Some('\u{2B}')
    } else {
        None
    }
}

fn lookup_group_0(n: &[char]) -> (r: Option<char>)
    ensures
        r == glyph_group_0(n@),
{
    if n.len() == 5 && n[0] == 's' && n[1] == 'p' && n[2] == 'a' && n[3] == 'c' && n[4] == 'e' {
        Some('\u{20}')
    } else if n.len() == 6 && n[0] == 'e' && n[1] == 'x' && n[2] == 'c' && n[3] == 'l' && n[4] == 'a' && n[5] == 'm' {
        Some('\u{21}')
    } else if n.len() == 8 && n[0] == 'q' && n[1] == 'u' && n[2] == 'o' && n[3] == 't' && n[4] == 'e' && n[5] == 'd' && n[6] == 'b' && n[7] == 'l' {
        Some('\u{22}')
    } else if n.len() == 10 && n[0] == 'n' && n[1] == 'u' && n[2] == 'm' && n[3] == 'b' && n[4] == 'e' && n[5] == 'r' && n[6] == 's' && n[7] == 'i' && n[8] == 'g' && n[9] == 'n' {
        Some('\u{23}')
    } else if n.len() == 6 && n[0] == 'd' && n[1] == 'o' && n[2] == 'l' && n[3] == 'l' && n[4] == 'a' && n[5] == 'r' {
        Some('\u{24}')
    } else if n.len() == 7 && n[0] == 'p' && n[1] == 'e' && n[2] == 'r' && n[3] == 'c' && n[4] == 'e' && n[5] == 'n' && n[6] == 't' {
        Some('\u{25}')
    } else if n.len() == 9 && n[0] == 'a' && n[1] == 'm' && n[2] == 'p' && n[3] == 'e' && n[4] == 'r' && n[5] == 's' && n[6] == 'a' && n[7] == 'n' && n[8] == 'd' {
        Some('\u{26}')
    } else if n.len() == 11 && n[0] == 'q' && n[1] == 'u' && n[2] == 'o' && n[3] == 't' && n[4] == 'e' && n[5] == 's' && n[6] == 'i' && n[7] == 'n' && n[8] == 'g' && n[9] == 'l' && n[10] == 'e' {
        Some('\u{27}')
    } else if n.len() == 9 && n[0] == 'p' && n[1] == 'a' && n[2] == 'r' && n[3] == 'e' && n[4] == 'n' && n[5] == 'l' && n[6] == 'e' && n[7] == 'f' && n[8] == 't' {
        Some('\u{28}')
    } else if n.len() == 10 && n[0] == 'p' && n[1] == 'a' && n[2] == 'r' && n[3] == 'e' && n[4] == 'n' && n[5] == 'r' && n[6] == 'i' && n[7] == 'g' && n[8] == 'h' && n[9] == 't' {
        Some('\u{29}')
    } else if n.len() == 8 && n[0] == 'a' && n[1] == 's' && n[2] == 't' && n[3] == 'e' && n[4] == 'r' && n[5] == 'i' && n[6] == 's' && n[7] == 'k' {
        Some('\u{2A}')
    } else if n.len() == 4 && n[0] == 'p' && n[1] == 'l' && n[2] == 'u' && n[3] == 's' {
        Some('\u{2B}')
    } else {
        None
    }
}

pub open spec fn glyph_group_1(n: Seq<char>) -> Option<char> {
    if n.len() == 5 && n[0] == 'c' && n[1] == 'o' && n[2] == 'm' && n[3] == 'm' && n[4] == 'a' {
        Some('\u{2C}')
    } else if n.len() == 6 && n[0] == 'h' && n[1] == 'y' && n[2] == 'p' && n[3] == 'h' && n[4] == 'e' && n[5] == 'n' {
        Some('\u{2D}')
    } else if n.len() == 6 && n[0] == 'p' && n[1] == 'e' && n[2] == 'r' && n[3] == 'i' && n[4] == 'o' && n[5] == 'd' {
        Some('\u{2E}')
    } else if n.len() == 5 && n[0] == 's' && n[1] == 'l' && n[2] == 'a' && n[3] == 's' && n[4] == 'h' {
        Some('\u{2F}')
    } else if n.len() == 4 && n[0] == 'z' && n[1] == 'e' && n[2] == 'r' && n[3] == 'o' {
        Some('\u{30}')
    } else if n.len() == 3 && n[0] == 'o' && n[1] == 'n' && n[2] == 'e' {
        Some('\u{31}')
    } else if n.len() == 3 && n[0] == 't' && n[1] == 'w' && n[2] == 'o' {
        Some('\u{32}')
    } else if n.len() == 5 && n[0] == 't' && n[1] == 'h' && n[2] == 'r' && n[3] == 'e' && n[4] == 'e' {
        Some('\u{33}')
    } else if n.len() == 4 && n[0] == 'f' && n[1] == 'o' && n[2] == 'u' && n[3] == 'r' {
        Some('\u{34}')
    } else if n.len() == 4 && n[0] == 'f' && n[1] == 'i' && n[2] == 'v' && n[3] == 'e' {
        Some('\u{35}')
    } else if n.len() == 3 && n[0] == 's' && n[1] == 'i' && n[2] == 'x' {
        Some('\u{36}')
    } else if n.len() == 5 && n[0] == 's' && n[1] == 'e' && n[2] == 'v' && n[3] == 'e' && n[4] == 'n' {
        Some('\u{37}')
    } else {
        None
    }
}

fn lookup_group_1(n: &[char]) -> (r: Option<char>)
    ensures
        r == glyph_group_1(n@),
{
    if n.len() == 5 && n[0] == 'c' && n[1] == 'o' && n[2] == 'm' && n[3] == 'm' && n[4] == 'a' {
        Some('\u{2C}')
    } else if n.len() == 6 && n[0] == 'h' && n[1] == 'y' && n[2] == 'p' && n[3] == 'h' && n[4] == 'e' && n[5] == 'n' {
        Some('\u{2D}')
    } else if n.len() == 6 && n[0] == 'p' && n[1] == 'e' && n[2] == 'r' && n[3] == 'i' && n[4] == 'o' && n[5] == 'd' {
        Some('\u{2E}')
    } else if n.len() == 5 && n[0] == 's' && n[1] == 'l' && n[2] == 'a' && n[3] == 's' && n[4] == 'h' {
        Some('\u{2F}')
    } else if n.len() == 4 && n[0] == 'z' && n[1] == 'e' && n[2] == 'r' && n[3] == 'o' {
        Some('\u{30}')
    } else if n.len() == 3 && n[0] == 'o' && n[1] == 'n' && n[2] == 'e' {
        Some('\u{31}')
    } else if n.len() == 3 && n[0] == 't' && n[1] == 'w' && n[2] == 'o' {
        Some('\u{32}')
    } else if n.len() == 5 && n[0] == 't' && n[1] == 'h' && n[2] == 'r' && n[3] == 'e' && n[4] == 'e' {
        Some('\u{33}')
    } else if n.len() == 4 && n[0] == 'f' && n[1] == 'o' && n[2] == 'u' && n[3] == 'r' {
        Some('\u{34}')
    } else if n.len() == 4 && n[0] == 'f' && n[1] == 'i' && n[2] == 'v' && n[3] == 'e' {
        Some('\u{35}')
    } else if n.len() == 3 && n[0] == 's' && n[1] == 'i' && n[2] == 'x' {
        Some('\u{36}')
    } else if n.len() == 5 && n[0] == 's' && n[1] == 'e' && n[2] == 'v' && n[3] == 'e' && n[4] == 'n' {
        Some('\u{37}')
    } else {
        None
    }
}

pub open spec fn glyph_group_2(n: Seq<char>) -> Option<char> {
    if n.len() == 5 && n[0] == 'e' && n[1] == 'i' && n[2] == 'g' && n[3] == 'h' && n[4] == 't' {
        Some('\u{38}')
    } else if n.len() == 4 && n[0] == 'n' && n[1] == 'i' && n[2] == 'n' && n[3] == 'e' {
        Some('\u{39}')
    } else if n.len() == 5 && n[0] == 'c' && n[1] == 'o' && n[2] == 'l' && n[3] == 'o' && n[4] == 'n' {
        Some('\u{3A}')
    } else if n.len() == 9 && n[0] == 's' && n[1] == 'e' && n[2] == 'm' && n[3] == 'i' && n[4] == 'c' && n[5] == 'o' && n[6] == 'l' && n[7] == 'o' && n[8] == 'n' {
        Some('\u{3B}')
    } else if n.len() == 4 && n[0] == 'l' && n[1] == 'e' && n[2] == 's' && n[3] == 's' {
        Some('\u{3C}')
    } else if n.len() == 5 && n[0] == 'e' && n[1] == 'q' && n[2] == 'u' && n[3] == 'a' && n[4] == 'l' {
        Some('\u{3D}')
    } else if n.len() == 7 && n[0] == 'g' && n[1] == 'r' && n[2] == 'e' && n[3] == 'a' && n[4] == 't' && n[5] == 'e' && n[6] == 'r' {
        Some('\u{3E}')
    } else if n.len() == 8 && n[0] == 'q' && n[1] == 'u' && n[2] == 'e' && n[3] == 's' && n[4] == 't' && n[5] == 'i' && n[6] == 'o' && n[7] == 'n' {
        Some('\u{3F}')
    } else if n.len() == 2 && n[0] == 'a' && n[1] == 't' {
        Some('\u{40}')
    } else if n.len() == 1 && n[0] == 'A' {
        Some('\u{41}')
    } else if n.len() == 1 && n[0] == 'B' {
        Some('\u{42}')
    } else if n.len() == 1 && n[0] == 'C' {
        Some('\u{43}')
    } else {
        None
    }
}

fn lookup_group_2(n: &[char]) -> (r: Option<char>)
    ensures
        r == glyph_group_2(n@),
{
    if n.len() == 5 && n[0] == 'e' && n[1] == 'i' && n[2] == 'g' && n[3] == 'h' && n[4] == 't' {
        Some('\u{38}')
    } else if n.len() == 4 && n[0] == 'n' && n[1] == 'i' && n[2] == 'n' && n[3] == 'e' {
        Some('\u{39}')
    } else if n.len() == 5 && n[0] == 'c' && n[1] == 'o' && n[2] == 'l' && n[3] == 'o' && n[4] == 'n' {
        Some('\u{3A}')
    } else if n.len() == 9 && n[0] == 's' && n[1] == 'e' && n[2] == 'm' && n[3] == 'i' && n[4] == 'c' && n[5] == 'o' && n[6] == 'l' && n[7] == 'o' && n[8] == 'n' {
        Some('\u{3B}')
    } else if n.len() == 4 && n[0] == 'l' && n[1] == 'e' && n[2] == 's' && n[3] == 's' {
        Some('\u{3C}')
    } else if n.len() == 5 && n[0] == 'e' && n[1] == 'q' && n[2] == 'u' && n[3] == 'a' && n[4] == 'l' {
        Some('\u{3D}')
    } else if n.len() == 7 && n[0] == 'g' && n[1] == 'r' && n[2] == 'e' && n[3] == 'a' && n[4] == 't' && n[5] == 'e' && n[6] == 'r' {
        Some('\u{3E}')
    } else if n.len() == 8 && n[0] == 'q' && n[1] == 'u' && n[2] == 'e' && n[3] == 's' && n[4] == 't' && n[5] == 'i' && n[6] == 'o' && n[7] == 'n' {
        Some('\u{3F}')
    } else if n.len() == 2 && n[0] == 'a' && n[1] == 't' {
        Some('\u{40}')
    } else if n.len() == 1 && n[0] == 'A' {
        Some('\u{41}')
    } else if n.len() == 1 && n[0] == 'B' {
        Some('\u{42}')
    } else if n.len() == 1 && n[0] == 'C' {
        Some('\u{43}')
    } else {
        None
    }
}

pub open spec fn glyph_group_3(n: Seq<char>) -> Option<char> {
    if n.len() == 1 && n[0] == 'D' {
        Some('\u{44}')
    } else if n.len() == 1 && n[0] == 'E' {
        Some('\u{45}')
    } else if n.len() == 1 && n[0] == 'F' {
        Some('\u{46}')
    } else if n.len() == 1 && n[0] == 'G' {
        Some('\u{47}')
    } else if n.len() == 1 && n[0] == 'H' {
        Some('\u{48}')
    } else if n.len() == 1 && n[0] == 'I' {
        Some('\u{49}')
    } else if n.len() == 1 && n[0] == 'J' {
        Some('\u{4A}')
    } else if n.len() == 1 && n[0] == 'K' {
        Some('\u{4B}')
    } else if n.len() == 1 && n[0] == 'L' {
        Some('\u{4C}')
    } else if n.len() == 1 && n[0] == 'M' {
        Some('\u{4D}')
    } else if n.len() == 1 && n[0] == 'N' {
        Some('\u{4E}')
    } else if n.len() == 1 && n[0] == 'O' {
        Some('\u{4F}')
    } else {
        None
    }
}

fn lookup_group_3(n: &[char]) -> (r: Option<char>)
    ensures
        r == glyph_group_3(n@),
{
    if n.len() == 1 && n[0] == 'D' {
        Some('\u{44}')
    } else if n.len() == 1 && n[0] == 'E' {
        Some('\u{45}')
    } else if n.len() == 1 && n[0] == 'F' {
        Some('\u{46}')
    } else if n.len() == 1 && n[0] == 'G' {
        Some('\u{47}')
    } else if n.len() == 1 && n[0] == 'H' {
        Some('\u{48}')
    } else if n.len() == 1 && n[0] == 'I' {
        Some('\u{49}')
    } else if n.len() == 1 && n[0] == 'J' {
        Some('\u{4A}')
    } else if n.len() == 1 && n[0] == 'K' {
        Some('\u{4B}')
    } else if n.len() == 1 && n[0] == 'L' {
        Some('\u{4C}')
    } else if n.len() == 1 && n[0] == 'M' {
        Some('\u{4D}')
    } else if n.len() == 1 && n[0] == 'N' {
        Some('\u{4E}')
    } else if n.len() == 1 && n[0] == 'O' {
        Some('\u{4F}')
    } else {
        None
    }
}

pub open spec fn glyph_group_4(n: Seq<char>) -> Option<char> {
    if n.len() == 1 && n[0] == 'P' {
        Some('\u{50}')
    } else if n.len() == 1 && n[0] == 'Q' {
        Some('\u{51}')
    } else if n.len() == 1 && n[0] == 'R' {
        Some('\u{52}')
    } else if n.len() == 1 && n[0] == 'S' {
        Some('\u{53}')
    } else if n.len() == 1 && n[0] == 'T' {
        Some('\u{54}')
    } else if n.len() == 1 && n[0] == 'U' {
        Some('\u{55}')
    } else if n.len() == 1 && n[0] == 'V' {
        Some('\u{56}')
    } else if n.len() == 1 && n[0] == 'W' {
        Some('\u{57}')
    } else if n.len() == 1 && n[0] == 'X' {
        Some('\u{58}')
    } else if n.len() == 1 && n[0] == 'Y' {
        Some('\u{59}')
    } else if n.len() == 1 && n[0] == 'Z' {
        Some('\u{5A}')
    } else if n.len() == 11 && n[0] == 'b' && n[1] == 'r' && n[2] == 'a' && n[3] == 'c' && n[4] == 'k' && n[5] == 'e' && n[6] == 't' && n[7] == 'l' && n[8] == 'e' && n[9] == 'f' && n[10] == 't' {
        Some('\u{5B}')
    } else {
        None
    }
}

fn lookup_group_4(n: &[char]) -> (r: Option<char>)
    ensures
        r == glyph_group_4(n@),
{
    if n.len() == 1 && n[0] == 'P' {
        Some('\u{50}')
    } else if n.len() == 1 && n[0] == 'Q' {
        Some('\u{51}')
    } else if n.len() == 1 && n[0] == 'R' {
        Some('\u{52}')
    } else if n.len() == 1 && n[0] == 'S' {
        Some('\u{53}')
    } else if n.len() == 1 && n[0] == 'T' {
        Some('\u{54}')
    } else if n.len() == 1 && n[0] == 'U' {
        Some('\u{55}')
    } else if n.len() == 1 && n[0] == 'V' {
        Some('\u{56}')
    } else if n.len() == 1 && n[0] == 'W' {
        Some('\u{57}')
    } else if n.len() == 1 && n[0] == 'X' {
        Some('\u{58}')
    } else if n.len() == 1 && n[0] == 'Y' {
        Some('\u{59}')
    } else if n.len() == 1 && n[0] == 'Z' {
        Some('\u{5A}')
    } else if n.len() == 11 && n[0] == 'b' && n[1] == 'r' && n[2] == 'a' && n[3] == 'c' && n[4] == 'k' && n[5] == 'e' && n[6] == 't' && n[7] == 'l' && n[8] == 'e' && n[9] == 'f' && n[10] == 't' {
        Some('\u{5B}')
    } else {
        None
    }
}

pub open spec fn glyph_group_5(n: Seq<char>) -> Option<char> {
    if n.len() == 9 && n[0] == 'b' && n[1] == 'a' && n[2] == 'c' && n[3] == 'k' && n[4] == 's' && n[5] == 'l' && n[6] == 'a' && n[7] == 's' && n[8] == 'h' {
        Some('\u{5C}')
    } else if n.len() == 12 && n[0] == 'b' && n[1] == 'r' && n[2] == 'a' && n[3] == 'c' && n[4] == 'k' && n[5] == 'e' && n[6] == 't' && n[7] == 'r' && n[8] == 'i' && n[9] == 'g' && n[10] == 'h' && n[11] == 't' {
        Some('\u{5D}')
    } else if n.len() == 11 && n[0] == 'a' && n[1] == 's' && n[2] == 'c' && n[3] == 'i' && n[4] == 'i' && n[5] == 'c' && n[6] == 'i' && n[7] == 'r' && n[8] == 'c' && n[9] == 'u' && n[10] == 'm' {
        Some('\u{5E}')
    } else if n.len() == 10 && n[0] == 'u' && n[1] == 'n' && n[2] == 'd' && n[3] == 'e' && n[4] == 'r' && n[5] == 's' && n[6] == 'c' && n[7] == 'o' && n[8] == 'r' && n[9] == 'e' {
        Some('\u{5F}')
    } else if n.len() == 5 && n[0] == 'g' && n[1] == 'r' && n[2] == 'a' && n[3] == 'v' && n[4] == 'e' {
        Some('\u{60}')
    } else if n.len() == 1 && n[0] == 'a' {
        Some('\u{61}')
    } else if n.len() == 1 && n[0] == 'b' {
        Some('\u{62}')
    } else if n.len() == 1 && n[0] == 'c' {
        Some('\u{63}')
    } else if n.len() == 1 && n[0] == 'd' {
        Some('\u{64}')
    } else if n.len() == 1 && n[0] == 'e' {
        Some('\u{65}')
    } else if n.len() == 1 && n[0] == 'f' {
        Some('\u{66}')
    } else if n.len() == 1 && n[0] == 'g' {
        Some('\u{67}')
    } else {
        None
    }
}

fn lookup_group_5(n: &[char]) -> (r: Option<char>)
    ensures
        r == glyph_group_5(n@),
{
    if n.len() == 9 && n[0] == 'b' && n[1] == 'a' && n[2] == 'c' && n[3] == 'k' && n[4] == 's' && n[5] == 'l' && n[6] == 'a' && n[7] == 's' && n[8] == 'h' {
        Some('\u{5C}')
    } else if n.len() == 12 && n[0] == 'b' && n[1] == 'r' && n[2] == 'a' && n[3] == 'c' && n[4] == 'k' && n[5] == 'e' && n[6] == 't' && n[7] == 'r' && n[8] == 'i' && n[9] == 'g' && n[10] == 'h' && n[11] == 't' {
        Some('\u{5D}')
    } else if n.len() == 11 && n[0] == 'a' && n[1] == 's' && n[2] == 'c' && n[3] == 'i' && n[4] == 'i' && n[5] == 'c' && n[6] == 'i' && n[7] == 'r' && n[8] == 'c' && n[9] == 'u' && n[10] == 'm' {
        Some('\u{5E}')
    } else if n.len() == 10 && n[0] == 'u' && n[1] == 'n' && n[2] == 'd' && n[3] == 'e' && n[4] == 'r' && n[5] == 's' && n[6] == 'c' && n[7] == 'o' && n[8] == 'r' && n[9] == 'e' {
        Some('\u{5F}')
    } else if n.len() == 5 && n[0] == 'g' && n[1] == 'r' && n[2] == 'a' && n[3] == 'v' && n[4] == 'e' {
        Some('\u{60}')
    } else if n.len() == 1 && n[0] == 'a' {
        Some('\u{61}')
    } else if n.len() == 1 && n[0] == 'b' {
        Some('\u{62}')
    } else if n.len() == 1 && n[0] == 'c' {
        Some('\u{63}')
    } else if n.len() == 1 && n[0] == 'd' {
        Some('\u{64}')
    } else if n.len() == 1 && n[0] == 'e' {
        Some('\u{65}')
    } else if n.len() == 1 && n[0] == 'f' {
        Some('\u{66}')
    } else if n.len() == 1 && n[0] == 'g' {
        Some('\u{67}')
    } else {
        None
    }
}

pub open spec fn glyph_group_6(n: Seq<char>) -> Option<char> {
    if n.len() == 1 && n[0] == 'h' {
        Some('\u{68}')
    } else if n.len() == 1 && n[0] == 'i' {
        Some('\u{69}')
    } else if n.len() == 1 && n[0] == 'j' {
        Some('\u{6A}')
    } else if n.len() == 1 && n[0] == 'k' {
        Some('\u{6B}')
    } else if n.len() == 1 && n[0] == 'l' {
        Some('\u{6C}')
    } else if n.len() == 1 && n[0] == 'm' {
        Some('\u{6D}')
    } else if n.len() == 1 && n[0] == 'n' {
        Some('\u{6E}')
    } else if n.len() == 1 && n[0] == 'o' {
        Some('\u{6F}')
    } else if n.len() == 1 && n[0] == 'p' {
        Some('\u{70}')
    } else if n.len() == 1 && n[0] == 'q' {
        Some('\u{71}')
    } else if n.len() == 1 && n[0] == 'r' {
        Some('\u{72}')
    } else if n.len() == 1 && n[0] == 's' {
        Some('\u{73}')
    } else {
        None
    }
}

fn lookup_group_6(n: &[char]) -> (r: Option<char>)
    ensures
        r == glyph_group_6(n@),
{
    if n.len() == 1 && n[0] == 'h' {
        Some('\u{68}')
    } else if n.len() == 1 && n[0] == 'i' {
        Some('\u{69}')
    } else if n.len() == 1 && n[0] == 'j' {
        Some('\u{6A}')
    } else if n.len() == 1 && n[0] == 'k' {
        Some('\u{6B}')
    } else if n.len() == 1 && n[0] == 'l' {
        Some('\u{6C}')
    } else if n.len() == 1 && n[0] == 'm' {
        Some('\u{6D}')
    } else if n.len() == 1 && n[0] == 'n' {
        Some('\u{6E}')
    } else if n.len() == 1 && n[0] == 'o' {
        Some('\u{6F}')
    } else if n.len() == 1 && n[0] == 'p' {
        Some('\u{70}')
    } else if n.len() == 1 && n[0] == 'q' {
        Some('\u{71}')
    } else if n.len() == 1 && n[0] == 'r' {
        Some('\u{72}')
    } else if n.len() == 1 && n[0] == 's' {
        Some('\u{73}')
    } else {
        None
    }
}

pub open spec fn glyph_group_7(n: Seq<char>) -> Option<char> {
    if n.len() == 1 && n[0] == 't' {
        Some('\u{74}')
    } else if n.len() == 1 && n[0] == 'u' {
        Some('\u{75}')
    } else if n.len() == 1 && n[0] == 'v' {
        Some('\u{76}')
    } else if n.len() == 1 && n[0] == 'w' {
        Some('\u{77}')
    } else if n.len() == 1 && n[0] == 'x' {
        Some('\u{78}')
    } else if n.len() == 1 && n[0] == 'y' {
        Some('\u{79}')
    } else if n.len() == 1 && n[0] == 'z' {
        Some('\u{7A}')
    } else if n.len() == 9 && n[0] == 'b' && n[1] == 'r' && n[2] == 'a' && n[3] == 'c' && n[4] == 'e' && n[5] == 'l' && n[6] == 'e' && n[7] == 'f' && n[8] == 't' {
        Some('\u{7B}')
    } else if n.len() == 3 && n[0] == 'b' && n[1] == 'a' && n[2] == 'r' {
        Some('\u{7C}')
    } else if n.len() == 10 && n[0] == 'b' && n[1] == 'r' && n[2] == 'a' && n[3] == 'c' && n[4] == 'e' && n[5] == 'r' && n[6] == 'i' && n[7] == 'g' && n[8] == 'h' && n[9] == 't' {
        Some('\u{7D}')
    } else if n.len() == 10 && n[0] == 'a' && n[1] == 's' && n[2] == 'c' && n[3] == 'i' && n[4] == 'i' && n[5] == 't' && n[6] == 'i' && n[7] == 'l' && n[8] == 'd' && n[9] == 'e' {
        Some('\u{7E}')
    } else if n.len() == 9 && n[0] == 'q' && n[1] == 'u' && n[2] == 'o' && n[3] == 't' && n[4] == 'e' && n[5] == 'l' && n[6] == 'e' && n[7] == 'f' && n[8] == 't' {
        Some('\u{2018}')
    } else {
        None
    }
}

fn lookup_group_7(n: &[char]) -> (r: Option<char>)
    ensures
        r == glyph_group_7(n@),
{
    if n.len() == 1 && n[0] == 't' {
        Some('\u{74}')
    } else if n.len() == 1 && n[0] == 'u' {
        Some('\u{75}')
    } else if n.len() == 1 && n[0] == 'v' {
        Some('\u{76}')
    } else if n.len() == 1 && n[0] == 'w' {
        Some('\u{77}')
    } else if n.len() == 1 && n[0] == 'x' {
        Some('\u{78}')
    } else if n.len() == 1 && n[0] == 'y' {
        Some('\u{79}')
    } else if n.len() == 1 && n[0] == 'z' {
        Some('\u{7A}')
    } else if n.len() == 9 && n[0] == 'b' && n[1] == 'r' && n[2] == 'a' && n[3] == 'c' && n[4] == 'e' && n[5] == 'l' && n[6] == 'e' && n[7] == 'f' && n[8] == 't' {
        Some('\u{7B}')
    } else if n.len() == 3 && n[0] == 'b' && n[1] == 'a' && n[2] == 'r' {
        Some('\u{7C}')
    } else if n.len() == 10 && n[0] == 'b' && n[1] == 'r' && n[2] == 'a' && n[3] == 'c' && n[4] == 'e' && n[5] == 'r' && n[6] == 'i' && n[7] == 'g' && n[8] == 'h' && n[9] == 't' {
        Some('\u{7D}')
    } else if n.len() == 10 && n[0] == 'a' && n[1] == 's' && n[2] == 'c' && n[3] == 'i' && n[4] == 'i' && n[5] == 't' && n[6] == 'i' && n[7] == 'l' && n[8] == 'd' && n[9] == 'e' {
        Some('\u{7E}')
    } else if n.len() == 9 && n[0] == 'q' && n[1] == 'u' && n[2] == 'o' && n[3] == 't' && n[4] == 'e' && n[5] == 'l' && n[6] == 'e' && n[7] == 'f' && n[8] == 't' {
        Some('\u{2018}')
    } else {
        None
    }
}

pub open spec fn glyph_group_8(n: Seq<char>) -> Option<char> {
    if n.len() == 10 && n[0] == 'q' && n[1] == 'u' && n[2] == 'o' && n[3] == 't' && n[4] == 'e' && n[5] == 'r' && n[6] == 'i' && n[7] == 'g' && n[8] == 'h' && n[9] == 't' {
        Some('\u{2019}')
    } else if n.len() == 12 && n[0] == 'q' && n[1] == 'u' && n[2] == 'o' && n[3] == 't' && n[4] == 'e' && n[5] == 'd' && n[6] == 'b' && n[7] == 'l' && n[8] == 'l' && n[9] == 'e' && n[10] == 'f' && n[11] == 't' {
        Some('\u{201C}')
    } else if n.len() == 13 && n[0] == 'q' && n[1] == 'u' && n[2] == 'o' && n[3] == 't' && n[4] == 'e' && n[5] == 'd' && n[6] == 'b' && n[7] == 'l' && n[8] == 'r' && n[9] == 'i' && n[10] == 'g' && n[11] == 'h' && n[12] == 't' {
        Some('\u{201D}')
    } else if n.len() == 14 && n[0] == 'q' && n[1] == 'u' && n[2] == 'o' && n[3] == 't' && n[4] == 'e' && n[5] == 's' && n[6] == 'i' && n[7] == 'n' && n[8] == 'g' && n[9] == 'l' && n[10] == 'b' && n[11] == 'a' && n[12] == 's' && n[13] == 'e' {
        Some('\u{201A}')
    } else if n.len() == 12 && n[0] == 'q' && n[1] == 'u' && n[2] == 'o' && n[3] == 't' && n[4] == 'e' && n[5] == 'd' && n[6] == 'b' && n[7] == 'l' && n[8] == 'b' && n[9] == 'a' && n[10] == 's' && n[11] == 'e' {
        Some('\u{201E}')
    } else if n.len() == 6 && n[0] == 'b' && n[1] == 'u' && n[2] == 'l' && n[3] == 'l' && n[4] == 'e' && n[5] == 't' {
        Some('\u{2022}')
    } else if n.len() == 6 && n[0] == 'e' && n[1] == 'n' && n[2] == 'd' && n[3] == 'a' && n[4] == 's' && n[5] == 'h' {
        Some('\u{2013}')
    } else if n.len() == 6 && n[0] == 'e' && n[1] == 'm' && n[2] == 'd' && n[3] == 'a' && n[4] == 's' && n[5] == 'h' {
        Some('\u{2014}')
    } else if n.len() == 8 && n[0] == 'e' && n[1] == 'l' && n[2] == 'l' && n[3] == 'i' && n[4] == 'p' && n[5] == 's' && n[6] == 'i' && n[7] == 's' {
        Some('\u{2026}')
    } else if n.len() == 6 && n[0] == 'd' && n[1] == 'a' && n[2] == 'g' && n[3] == 'g' && n[4] == 'e' && n[5] == 'r' {
        Some('\u{2020}')
    } else if n.len() == 9 && n[0] == 'd' && n[1] == 'a' && n[2] == 'g' && n[3] == 'g' && n[4] == 'e' && n[5] == 'r' && n[6] == 'd' && n[7] == 'b' && n[8] == 'l' {
        Some('\u{2021}')
    } else if n.len() == 11 && n[0] == 'p' && n[1] == 'e' && n[2] == 'r' && n[3] == 't' && n[4] == 'h' && n[5] == 'o' && n[6] == 'u' && n[7] == 's' && n[8] == 'a' && n[9] == 'n' && n[10] == 'd' {
        Some('\u{2030}')
    } else {
        None
    }
}

fn lookup_group_8(n: &[char]) -> (r: Option<char>)
    ensures
        r == glyph_group_8(n@),
{
    if n.len() == 10 && n[0] == 'q' && n[1] == 'u' && n[2] == 'o' && n[3] == 't' && n[4] == 'e' && n[5] == 'r' && n[6] == 'i' && n[7] == 'g' && n[8] == 'h' && n[9] == 't' {
        Some('\u{2019}')
    } else if n.len() == 12 && n[0] == 'q' && n[1] == 'u' && n[2] == 'o' && n[3] == 't' && n[4] == 'e' && n[5] == 'd' && n[6] == 'b' && n[7] == 'l' && n[8] == 'l' && n[9] == 'e' && n[10] == 'f' && n[11] == 't' {
        Some('\u{201C}')
    } else if n.len() == 13 && n[0] == 'q' && n[1] == 'u' && n[2] == 'o' && n[3] == 't' && n[4] == 'e' && n[5] == 'd' && n[6] == 'b' && n[7] == 'l' && n[8] == 'r' && n[9] == 'i' && n[10] == 'g' && n[11] == 'h' && n[12] == 't' {
        Some('\u{201D}')
    } else if n.len() == 14 && n[0] == 'q' && n[1] == 'u' && n[2] == 'o' && n[3] == 't' && n[4] == 'e' && n[5] == 's' && n[6] == 'i' && n[7] == 'n' && n[8] == 'g' && n[9] == 'l' && n[10] == 'b' && n[11] == 'a' && n[12] == 's' && n[13] == 'e' {
        Some('\u{201A}')
    } else if n.len() == 12 && n[0] == 'q' && n[1] == 'u' && n[2] == 'o' && n[3] == 't' && n[4] == 'e' && n[5] == 'd' && n[6] == 'b' && n[7] == 'l' && n[8] == 'b' && n[9] == 'a' && n[10] == 's' && n[11] == 'e' {
        Some('\u{201E}')
    } else if n.len() == 6 && n[0] == 'b' && n[1] == 'u' && n[2] == 'l' && n[3] == 'l' && n[4] == 'e' && n[5] == 't' {
        Some('\u{2022}')
    } else if n.len() == 6 && n[0] == 'e' && n[1] == 'n' && n[2] == 'd' && n[3] == 'a' && n[4] == 's' && n[5] == 'h' {
        Some('\u{2013}')
    } else if n.len() == 6 && n[0] == 'e' && n[1] == 'm' && n[2] == 'd' && n[3] == 'a' && n[4] == 's' && n[5] == 'h' {
        Some('\u{2014}')
    } else if n.len() == 8 && n[0] == 'e' && n[1] == 'l' && n[2] == 'l' && n[3] == 'i' && n[4] == 'p' && n[5] == 's' && n[6] == 'i' && n[7] == 's' {
        Some('\u{2026}')
    } else if n.len() == 6 && n[0] == 'd' && n[1] == 'a' && n[2] == 'g' && n[3] == 'g' && n[4] == 'e' && n[5] == 'r' {
        Some('\u{2020}')
    } else if n.len() == 9 && n[0] == 'd' && n[1] == 'a' && n[2] == 'g' && n[3] == 'g' && n[4] == 'e' && n[5] == 'r' && n[6] == 'd' && n[7] == 'b' && n[8] == 'l' {
        Some('\u{2021}')
    } else if n.len() == 11 && n[0] == 'p' && n[1] == 'e' && n[2] == 'r' && n[3] == 't' && n[4] == 'h' && n[5] == 'o' && n[6] == 'u' && n[7] == 's' && n[8] == 'a' && n[9] == 'n' && n[10] == 'd' {
        Some('\u{2030}')
    } else {
        None
    }
}

pub open spec fn glyph_group_9(n: Seq<char>) -> Option<char> {
    if n.len() == 9 && n[0] == 't' && n[1] == 'r' && n[2] == 'a' && n[3] == 'd' && n[4] == 'e' && n[5] == 'm' && n[6] == 'a' && n[7] == 'r' && n[8] == 'k' {
        Some('\u{2122}')
    } else if n.len() == 9 && n[0] == 'c' && n[1] == 'o' && n[2] == 'p' && n[3] == 'y' && n[4] == 'r' && n[5] == 'i' && n[6] == 'g' && n[7] == 'h' && n[8] == 't' {
        Some('\u{A9}')
    } else if n.len() == 10 && n[0] == 'r' && n[1] == 'e' && n[2] == 'g' && n[3] == 'i' && n[4] == 's' && n[5] == 't' && n[6] == 'e' && n[7] == 'r' && n[8] == 'e' && n[9] == 'd' {
        Some('\u{AE}')
    } else if n.len() == 6 && n[0] == 'd' && n[1] == 'e' && n[2] == 'g' && n[3] == 'r' && n[4] == 'e' && n[5] == 'e' {
        Some('\u{B0}')
    } else if n.len() == 7 && n[0] == 's' && n[1] == 'e' && n[2] == 'c' && n[3] == 't' && n[4] == 'i' && n[5] == 'o' && n[6] == 'n' {
        Some('\u{A7}')
    } else if n.len() == 9 && n[0] == 'p' && n[1] == 'a' && n[2] == 'r' && n[3] == 'a' && n[4] == 'g' && n[5] == 'r' && n[6] == 'a' && n[7] == 'p' && n[8] == 'h' {
        Some('\u{B6}')
    } else if n.len() == 14 && n[0] == 'p' && n[1] == 'e' && n[2] == 'r' && n[3] == 'i' && n[4] == 'o' && n[5] == 'd' && n[6] == 'c' && n[7] == 'e' && n[8] == 'n' && n[9] == 't' && n[10] == 'e' && n[11] == 'r' && n[12] == 'e' && n[13] == 'd' {
        Some('\u{B7}')
    } else if n.len() == 2 && n[0] == 'f' && n[1] == 'f' {
        Some('\u{FB00}')
    } else if n.len() == 2 && n[0] == 'f' && n[1] == 'i' {
        Some('\u{FB01}')
    } else if n.len() == 2 && n[0] == 'f' && n[1] == 'l' {
        Some('\u{FB02}')
    } else if n.len() == 3 && n[0] == 'f' && n[1] == 'f' && n[2] == 'i' {
        Some('\u{FB03}')
    } else if n.len() == 3 && n[0] == 'f' && n[1] == 'f' && n[2] == 'l' {
        Some('\u{FB04}')
    } else {
        None
    }
}

fn lookup_group_9(n: &[char]) -> (r: Option<char>)
    ensures
        r == glyph_group_9(n@),
{
    if n.len() == 9 && n[0] == 't' && n[1] == 'r' && n[2] == 'a' && n[3] == 'd' && n[4] == 'e' && n[5] == 'm' && n[6] == 'a' && n[7] == 'r' && n[8] == 'k' {
        Some('\u{2122}')
    } else if n.len() == 9 && n[0] == 'c' && n[1] == 'o' && n[2] == 'p' && n[3] == 'y' && n[4] == 'r' && n[5] == 'i' && n[6] == 'g' && n[7] == 'h' && n[8] == 't' {
        Some('\u{A9}')
    } else if n.len() == 10 && n[0] == 'r' && n[1] == 'e' && n[2] == 'g' && n[3] == 'i' && n[4] == 's' && n[5] == 't' && n[6] == 'e' && n[7] == 'r' && n[8] == 'e' && n[9] == 'd' {
        Some('\u{AE}')
    } else if n.len() == 6 && n[0] == 'd' && n[1] == 'e' && n[2] == 'g' && n[3] == 'r' && n[4] == 'e' && n[5] == 'e' {
        Some('\u{B0}')
    } else if n.len() == 7 && n[0] == 's' && n[1] == 'e' && n[2] == 'c' && n[3] == 't' && n[4] == 'i' && n[5] == 'o' && n[6] == 'n' {
        Some('\u{A7}')
    } else if n.len() == 9 && n[0] == 'p' && n[1] == 'a' && n[2] == 'r' && n[3] == 'a' && n[4] == 'g' && n[5] == 'r' && n[6] == 'a' && n[7] == 'p' && n[8] == 'h' {
        Some('\u{B6}')
    } else if n.len() == 14 && n[0] == 'p' && n[1] == 'e' && n[2] == 'r' && n[3] == 'i' && n[4] == 'o' && n[5] == 'd' && n[6] == 'c' && n[7] == 'e' && n[8] == 'n' && n[9] == 't' && n[10] == 'e' && n[11] == 'r' && n[12] == 'e' && n[13] == 'd' {
        Some('\u{B7}')
    } else if n.len() == 2 && n[0] == 'f' && n[1] == 'f' {
        Some('\u{FB00}')
    } else if n.len() == 2 && n[0] == 'f' && n[1] == 'i' {
        Some('\u{FB01}')
    } else if n.len() == 2 && n[0] == 'f' && n[1] == 'l' {
        Some('\u{FB02}')
    } else if n.len() == 3 && n[0] == 'f' && n[1] == 'f' && n[2] == 'i' {
        Some('\u{FB03}')
    } else if n.len() == 3 && n[0] == 'f' && n[1] == 'f' && n[2] == 'l' {
        Some('\u{FB04}')
    } else {
        None
    }
}

pub open spec fn glyph_group_10(n: Seq<char>) -> Option<char> {
    if n.len() == 7 && n[0] == 'n' && n[1] == 'b' && n[2] == 's' && n[3] == 'p' && n[4] == 'a' && n[5] == 'c' && n[6] == 'e' {
        Some('\u{A0}')
    } else if n.len() == 10 && n[0] == 'e' && n[1] == 'x' && n[2] == 'c' && n[3] == 'l' && n[4] == 'a' && n[5] == 'm' && n[6] == 'd' && n[7] == 'o' && n[8] == 'w' && n[9] == 'n' {
        Some('\u{A1}')
    } else if n.len() == 4 && n[0] == 'c' && n[1] == 'e' && n[2] == 'n' && n[3] == 't' {
        Some('\u{A2}')
    } else if n.len() == 8 && n[0] == 's' && n[1] == 't' && n[2] == 'e' && n[3] == 'r' && n[4] == 'l' && n[5] == 'i' && n[6] == 'n' && n[7] == 'g' {
        Some('\u{A3}')
    } else if n.len() == 8 && n[0] == 'c' && n[1] == 'u' && n[2] == 'r' && n[3] == 'r' && n[4] == 'e' && n[5] == 'n' && n[6] == 'c' && n[7] == 'y' {
        Some('\u{A4}')
    } else if n.len() == 3 && n[0] == 'y' && n[1] == 'e' && n[2] == 'n' {
        Some('\u{A5}')
    } else if n.len() == 9 && n[0] == 'b' && n[1] == 'r' && n[2] == 'o' && n[3] == 'k' && n[4] == 'e' && n[5] == 'n' && n[6] == 'b' && n[7] == 'a' && n[8] == 'r' {
        Some('\u{A6}')
    } else if n.len() == 8 && n[0] == 'd' && n[1] == 'i' && n[2] == 'e' && n[3] == 'r' && n[4] == 'e' && n[5] == 's' && n[6] == 'i' && n[7] == 's' {
        Some('\u{A8}')
    } else if n.len() == 11 && n[0] == 'o' && n[1] == 'r' && n[2] == 'd' && n[3] == 'f' && n[4] == 'e' && n[5] == 'm' && n[6] == 'i' && n[7] == 'n' && n[8] == 'i' && n[9] == 'n' && n[10] == 'e' {
        Some('\u{AA}')
    } else if n.len() == 13 && n[0] == 'g' && n[1] == 'u' && n[2] == 'i' && n[3] == 'l' && n[4] == 'l' && n[5] == 'e' && n[6] == 'm' && n[7] == 'o' && n[8] == 't' && n[9] == 'l' && n[10] == 'e' && n[11] == 'f' && n[12] == 't' {
        Some('\u{AB}')
    } else if n.len() == 10 && n[0] == 'l' && n[1] == 'o' && n[2] == 'g' && n[3] == 'i' && n[4] == 'c' && n[5] == 'a' && n[6] == 'l' && n[7] == 'n' && n[8] == 'o' && n[9] == 't' {
        Some('\u{AC}')
    } else if n.len() == 6 && n[0] == 'm' && n[1] == 'a' && n[2] == 'c' && n[3] == 'r' && n[4] == 'o' && n[5] == 'n' {
        Some('\u{AF}')
    } else {
        None
    }
}

fn lookup_group_10(n: &[char]) -> (r: Option<char>)
    ensures
        r == glyph_group_10(n@),
{
    if n.len() == 7 && n[0] == 'n' && n[1] == 'b' && n[2] == 's' && n[3] == 'p' && n[4] == 'a' && n[5] == 'c' && n[6] == 'e' {
        Some('\u{A0}')
    } else if n.len() == 10 && n[0] == 'e' && n[1] == 'x' && n[2] == 'c' && n[3] == 'l' && n[4] == 'a' && n[5] == 'm' && n[6] == 'd' && n[7] == 'o' && n[8] == 'w' && n[9] == 'n' {
        Some('\u{A1}')
    } else if n.len() == 4 && n[0] == 'c' && n[1] == 'e' && n[2] == 'n' && n[3] == 't' {
        Some('\u{A2}')
    } else if n.len() == 8 && n[0] == 's' && n[1] == 't' && n[2] == 'e' && n[3] == 'r' && n[4] == 'l' && n[5] == 'i' && n[6] == 'n' && n[7] == 'g' {
        Some('\u{A3}')
    } else if n.len() == 8 && n[0] == 'c' && n[1] == 'u' && n[2] == 'r' && n[3] == 'r' && n[4] == 'e' && n[5] == 'n' && n[6] == 'c' && n[7] == 'y' {
        Some('\u{A4}')
    } else if n.len() == 3 && n[0] == 'y' && n[1] == 'e' && n[2] == 'n' {
        Some('\u{A5}')
    } else if n.len() == 9 && n[0] == 'b' && n[1] == 'r' && n[2] == 'o' && n[3] == 'k' && n[4] == 'e' && n[5] == 'n' && n[6] == 'b' && n[7] == 'a' && n[8] == 'r' {
        Some('\u{A6}')
    } else if n.len() == 8 && n[0] == 'd' && n[1] == 'i' && n[2] == 'e' && n[3] == 'r' && n[4] == 'e' && n[5] == 's' && n[6] == 'i' && n[7] == 's' {
        Some('\u{A8}')
    } else if n.len() == 11 && n[0] == 'o' && n[1] == 'r' && n[2] == 'd' && n[3] == 'f' && n[4] == 'e' && n[5] == 'm' && n[6] == 'i' && n[7] == 'n' && n[8] == 'i' && n[9] == 'n' && n[10] == 'e' {
        Some('\u{AA}')
    } else if n.len() == 13 && n[0] == 'g' && n[1] == 'u' && n[2] == 'i' && n[3] == 'l' && n[4] == 'l' && n[5] == 'e' && n[6] == 'm' && n[7] == 'o' && n[8] == 't' && n[9] == 'l' && n[10] == 'e' && n[11] == 'f' && n[12] == 't' {
        Some('\u{AB}')
    } else if n.len() == 10 && n[0] == 'l' && n[1] == 'o' && n[2] == 'g' && n[3] == 'i' && n[4] == 'c' && n[5] == 'a' && n[6] == 'l' && n[7] == 'n' && n[8] == 'o' && n[9] == 't' {
        Some('\u{AC}')
    } else if n.len() == 6 && n[0] == 'm' && n[1] == 'a' && n[2] == 'c' && n[3] == 'r' && n[4] == 'o' && n[5] == 'n' {
        Some('\u{AF}')
    } else {
        None
    }
}

pub open spec fn glyph_group_11(n: Seq<char>) -> Option<char> {
    if n.len() == 9 && n[0] == 'p' && n[1] == 'l' && n[2] == 'u' && n[3] == 's' && n[4] == 'm' && n[5] == 'i' && n[6] == 'n' && n[7] == 'u' && n[8] == 's' {
        Some('\u{B1}')
    } else if n.len() == 5 && n[0] == 'a' && n[1] == 'c' && n[2] == 'u' && n[3] == 't' && n[4] == 'e' {
        Some('\u{B4}')
    } else if n.len() == 2 && n[0] == 'm' && n[1] == 'u' {
        Some('\u{B5}')
    } else if n.len() == 7 && n[0] == 'c' && n[1] == 'e' && n[2] == 'd' && n[3] == 'i' && n[4] == 'l' && n[5] == 'l' && n[6] == 'a' {
        Some('\u{B8}')
    } else if n.len() == 12 && n[0] == 'o' && n[1] == 'r' && n[2] == 'd' && n[3] == 'm' && n[4] == 'a' && n[5] == 's' && n[6] == 'c' && n[7] == 'u' && n[8] == 'l' && n[9] == 'i' && n[10] == 'n' && n[11] == 'e' {
        Some('\u{BA}')
    } else if n.len() == 14 && n[0] == 'g' && n[1] == 'u' && n[2] == 'i' && n[3] == 'l' && n[4] == 'l' && n[5] == 'e' && n[6] == 'm' && n[7] == 'o' && n[8] == 't' && n[9] == 'r' && n[10] == 'i' && n[11] == 'g' && n[12] == 'h' && n[13] == 't' {
        Some('\u{BB}')
    } else if n.len() == 12 && n[0] == 'q' && n[1] == 'u' && n[2] == 'e' && n[3] == 's' && n[4] == 't' && n[5] == 'i' && n[6] == 'o' && n[7] == 'n' && n[8] == 'd' && n[9] == 'o' && n[10] == 'w' && n[11] == 'n' {
        Some('\u{BF}')
    } else if n.len() == 6 && n[0] == 'A' && n[1] == 'g' && n[2] == 'r' && n[3] == 'a' && n[4] == 'v' && n[5] == 'e' {
        Some('\u{C0}')
    } else if n.len() == 6 && n[0] == 'A' && n[1] == 'a' && n[2] == 'c' && n[3] == 'u' && n[4] == 't' && n[5] == 'e' {
        Some('\u{C1}')
    } else if n.len() == 11 && n[0] == 'A' && n[1] == 'c' && n[2] == 'i' && n[3] == 'r' && n[4] == 'c' && n[5] == 'u' && n[6] == 'm' && n[7] == 'f' && n[8] == 'l' && n[9] == 'e' && n[10] == 'x' {
        Some('\u{C2}')
    } else if n.len() == 6 && n[0] == 'A' && n[1] == 't' && n[2] == 'i' && n[3] == 'l' && n[4] == 'd' && n[5] == 'e' {
        Some('\u{C3}')
    } else if n.len() == 9 && n[0] == 'A' && n[1] == 'd' && n[2] == 'i' && n[3] == 'e' && n[4] == 'r' && n[5] == 'e' && n[6] == 's' && n[7] == 'i' && n[8] == 's' {
        Some('\u{C4}')
    } else {
        None
    }
}

fn lookup_group_11(n: &[char]) -> (r: Option<char>)
    ensures
        r == glyph_group_11(n@),
{
    if n.len() == 9 && n[0] == 'p' && n[1] == 'l' && n[2] == 'u' && n[3] == 's' && n[4] == 'm' && n[5] == 'i' && n[6] == 'n' && n[7] == 'u' && n[8] == 's' {
        Some('\u{B1}')
    } else if n.len() == 5 && n[0] == 'a' && n[1] == 'c' && n[2] == 'u' && n[3] == 't' && n[4] == 'e' {
        Some('\u{B4}')
    } else if n.len() == 2 && n[0] == 'm' && n[1] == 'u' {
        Some('\u{B5}')
    } else if n.len() == 7 && n[0] == 'c' && n[1] == 'e' && n[2] == 'd' && n[3] == 'i' && n[4] == 'l' && n[5] == 'l' && n[6] == 'a' {
        Some('\u{B8}')
    } else if n.len() == 12 && n[0] == 'o' && n[1] == 'r' && n[2] == 'd' && n[3] == 'm' && n[4] == 'a' && n[5] == 's' && n[6] == 'c' && n[7] == 'u' && n[8] == 'l' && n[9] == 'i' && n[10] == 'n' && n[11] == 'e' {
        Some('\u{BA}')
    } else if n.len() == 14 && n[0] == 'g' && n[1] == 'u' && n[2] == 'i' && n[3] == 'l' && n[4] == 'l' && n[5] == 'e' && n[6] == 'm' && n[7] == 'o' && n[8] == 't' && n[9] == 'r' && n[10] == 'i' && n[11] == 'g' && n[12] == 'h' && n[13] == 't' {
        Some('\u{BB}')
    } else if n.len() == 12 && n[0] == 'q' && n[1] == 'u' && n[2] == 'e' && n[3] == 's' && n[4] == 't' && n[5] == 'i' && n[6] == 'o' && n[7] == 'n' && n[8] == 'd' && n[9] == 'o' && n[10] == 'w' && n[11] == 'n' {
        Some('\u{BF}')
    } else if n.len() == 6 && n[0] == 'A' && n[1] == 'g' && n[2] == 'r' && n[3] == 'a' && n[4] == 'v' && n[5] == 'e' {
        Some('\u{C0}')
    } else if n.len() == 6 && n[0] == 'A' && n[1] == 'a' && n[2] == 'c' && n[3] == 'u' && n[4] == 't' && n[5] == 'e' {
        Some('\u{C1}')
    } else if n.len() == 11 && n[0] == 'A' && n[1] == 'c' && n[2] == 'i' && n[3] == 'r' && n[4] == 'c' && n[5] == 'u' && n[6] == 'm' && n[7] == 'f' && n[8] == 'l' && n[9] == 'e' && n[10] == 'x' {
        Some('\u{C2}')
    } else if n.len() == 6 && n[0] == 'A' && n[1] == 't' && n[2] == 'i' && n[3] == 'l' && n[4] == 'd' && n[5] == 'e' {
        Some('\u{C3}')
    } else if n.len() == 9 && n[0] == 'A' && n[1] == 'd' && n[2] == 'i' && n[3] == 'e' && n[4] == 'r' && n[5] == 'e' && n[6] == 's' && n[7] == 'i' && n[8] == 's' {
        Some('\u{C4}')
    } else {
        None
    }
}

pub open spec fn glyph_group_12(n: Seq<char>) -> Option<char> {
    if n.len() == 5 && n[0] == 'A' && n[1] == 'r' && n[2] == 'i' && n[3] == 'n' && n[4] == 'g' {
        Some('\u{C5}')
    } else if n.len() == 2 && n[0] == 'A' && n[1] == 'E' {
        Some('\u{C6}')
    } else if n.len() == 8 && n[0] == 'C' && n[1] == 'c' && n[2] == 'e' && n[3] == 'd' && n[4] == 'i' && n[5] == 'l' && n[6] == 'l' && n[7] == 'a' {
        Some('\u{C7}')
    } else if n.len() == 6 && n[0] == 'E' && n[1] == 'g' && n[2] == 'r' && n[3] == 'a' && n[4] == 'v' && n[5] == 'e' {
        Some('\u{C8}')
    } else if n.len() == 6 && n[0] == 'E' && n[1] == 'a' && n[2] == 'c' && n[3] == 'u' && n[4] == 't' && n[5] == 'e' {
        Some('\u{C9}')
    } else if n.len() == 11 && n[0] == 'E' && n[1] == 'c' && n[2] == 'i' && n[3] == 'r' && n[4] == 'c' && n[5] == 'u' && n[6] == 'm' && n[7] == 'f' && n[8] == 'l' && n[9] == 'e' && n[10] == 'x' {
        Some('\u{CA}')
    } else if n.len() == 9 && n[0] == 'E' && n[1] == 'd' && n[2] == 'i' && n[3] == 'e' && n[4] == 'r' && n[5] == 'e' && n[6] == 's' && n[7] == 'i' && n[8] == 's' {
        Some('\u{CB}')
    } else if n.len() == 6 && n[0] == 'I' && n[1] == 'g' && n[2] == 'r' && n[3] == 'a' && n[4] == 'v' && n[5] == 'e' {
        Some('\u{CC}')
    } else if n.len() == 6 && n[0] == 'I' && n[1] == 'a' && n[2] == 'c' && n[3] == 'u' && n[4] == 't' && n[5] == 'e' {
        Some('\u{CD}')
    } else if n.len() == 11 && n[0] == 'I' && n[1] == 'c' && n[2] == 'i' && n[3] == 'r' && n[4] == 'c' && n[5] == 'u' && n[6] == 'm' && n[7] == 'f' && n[8] == 'l' && n[9] == 'e' && n[10] == 'x' {
        Some('\u{CE}')
    } else if n.len() == 9 && n[0] == 'I' && n[1] == 'd' && n[2] == 'i' && n[3] == 'e' && n[4] == 'r' && n[5] == 'e' && n[6] == 's' && n[7] == 'i' && n[8] == 's' {
        Some('\u{CF}')
    } else if n.len() == 3 && n[0] == 'E' && n[1] == 't' && n[2] == 'h' {
        Some('\u{D0}')
    } else {
        None
    }
}

fn lookup_group_12(n: &[char]) -> (r: Option<char>)
    ensures
        r == glyph_group_12(n@),
{
    if n.len() == 5 && n[0] == 'A' && n[1] == 'r' && n[2] == 'i' && n[3] == 'n' && n[4] == 'g' {
        Some('\u{C5}')
    } else if n.len() == 2 && n[0] == 'A' && n[1] == 'E' {
        Some('\u{C6}')
    } else if n.len() == 8 && n[0] == 'C' && n[1] == 'c' && n[2] == 'e' && n[3] == 'd' && n[4] == 'i' && n[5] == 'l' && n[6] == 'l' && n[7] == 'a' {
        Some('\u{C7}')
    } else if n.len() == 6 && n[0] == 'E' && n[1] == 'g' && n[2] == 'r' && n[3] == 'a' && n[4] == 'v' && n[5] == 'e' {
        Some('\u{C8}')
    } else if n.len() == 6 && n[0] == 'E' && n[1] == 'a' && n[2] == 'c' && n[3] == 'u' && n[4] == 't' && n[5] == 'e' {
        Some('\u{C9}')
    } else if n.len() == 11 && n[0] == 'E' && n[1] == 'c' && n[2] == 'i' && n[3] == 'r' && n[4] == 'c' && n[5] == 'u' && n[6] == 'm' && n[7] == 'f' && n[8] == 'l' && n[9] == 'e' && n[10] == 'x' {
        Some('\u{CA}')
    } else if n.len() == 9 && n[0] == 'E' && n[1] == 'd' && n[2] == 'i' && n[3] == 'e' && n[4] == 'r' && n[5] == 'e' && n[6] == 's' && n[7] == 'i' && n[8] == 's' {
        Some('\u{CB}')
    } else if n.len() == 6 && n[0] == 'I' && n[1] == 'g' && n[2] == 'r' && n[3] == 'a' && n[4] == 'v' && n[5] == 'e' {
        Some('\u{CC}')
    } else if n.len() == 6 && n[0] == 'I' && n[1] == 'a' && n[2] == 'c' && n[3] == 'u' && n[4] == 't' && n[5] == 'e' {
        Some('\u{CD}')
    } else if n.len() == 11 && n[0] == 'I' && n[1] == 'c' && n[2] == 'i' && n[3] == 'r' && n[4] == 'c' && n[5] == 'u' && n[6] == 'm' && n[7] == 'f' && n[8] == 'l' && n[9] == 'e' && n[10] == 'x' {
        Some('\u{CE}')
    } else if n.len() == 9 && n[0] == 'I' && n[1] == 'd' && n[2] == 'i' && n[3] == 'e' && n[4] == 'r' && n[5] == 'e' && n[6] == 's' && n[7] == 'i' && n[8] == 's' {
        Some('\u{CF}')
    } else if n.len() == 3 && n[0] == 'E' && n[1] == 't' && n[2] == 'h' {
        Some('\u{D0}')
    } else {
        None
    }
}

pub open spec fn glyph_group_13(n: Seq<char>) -> Option<char> {
    if n.len() == 6 && n[0] == 'N' && n[1] == 't' && n[2] == 'i' && n[3] == 'l' && n[4] == 'd' && n[5] == 'e' {
        Some('\u{D1}')
    } else if n.len() == 6 && n[0] == 'O' && n[1] == 'g' && n[2] == 'r' && n[3] == 'a' && n[4] == 'v' && n[5] == 'e' {
        Some('\u{D2}')
    } else if n.len() == 6 && n[0] == 'O' && n[1] == 'a' && n[2] == 'c' && n[3] == 'u' && n[4] == 't' && n[5] == 'e' {
        Some('\u{D3}')
    } else if n.len() == 11 && n[0] == 'O' && n[1] == 'c' && n[2] == 'i' && n[3] == 'r' && n[4] == 'c' && n[5] == 'u' && n[6] == 'm' && n[7] == 'f' && n[8] == 'l' && n[9] == 'e' && n[10] == 'x' {
        Some('\u{D4}')
    } else if n.len() == 6 && n[0] == 'O' && n[1] == 't' && n[2] == 'i' && n[3] == 'l' && n[4] == 'd' && n[5] == 'e' {
        Some('\u{D5}')
    } else if n.len() == 9 && n[0] == 'O' && n[1] == 'd' && n[2] == 'i' && n[3] == 'e' && n[4] == 'r' && n[5] == 'e' && n[6] == 's' && n[7] == 'i' && n[8] == 's' {
        Some('\u{D6}')
    } else if n.len() == 8 && n[0] == 'm' && n[1] == 'u' && n[2] == 'l' && n[3] == 't' && n[4] == 'i' && n[5] == 'p' && n[6] == 'l' && n[7] == 'y' {
        Some('\u{D7}')
    } else if n.len() == 6 && n[0] == 'O' && n[1] == 's' && n[2] == 'l' && n[3] == 'a' && n[4] == 's' && n[5] == 'h' {
        Some('\u{D8}')
    } else if n.len() == 6 && n[0] == 'U' && n[1] == 'g' && n[2] == 'r' && n[3] == 'a' && n[4] == 'v' && n[5] == 'e' {
        Some('\u{D9}')
    } else if n.len() == 6 && n[0] == 'U' && n[1] == 'a' && n[2] == 'c' && n[3] == 'u' && n[4] == 't' && n[5] == 'e' {
        Some('\u{DA}')
    } else if n.len() == 11 && n[0] == 'U' && n[1] == 'c' && n[2] == 'i' && n[3] == 'r' && n[4] == 'c' && n[5] == 'u' && n[6] == 'm' && n[7] == 'f' && n[8] == 'l' && n[9] == 'e' && n[10] == 'x' {
        Some('\u{DB}')
    } else if n.len() == 9 && n[0] == 'U' && n[1] == 'd' && n[2] == 'i' && n[3] == 'e' && n[4] == 'r' && n[5] == 'e' && n[6] == 's' && n[7] == 'i' && n[8] == 's' {
        Some('\u{DC}')
    } else {
        None
    }
}

fn lookup_group_13(n: &[char]) -> (r: Option<char>)
    ensures
        r == glyph_group_13(n@),
{
    if n.len() == 6 && n[0] == 'N' && n[1] == 't' && n[2] == 'i' && n[3] == 'l' && n[4] == 'd' && n[5] == 'e' {
        Some('\u{D1}')
    } else if n.len() == 6 && n[0] == 'O' && n[1] == 'g' && n[2] == 'r' && n[3] == 'a' && n[4] == 'v' && n[5] == 'e' {
        Some('\u{D2}')
    } else if n.len() == 6 && n[0] == 'O' && n[1] == 'a' && n[2] == 'c' && n[3] == 'u' && n[4] == 't' && n[5] == 'e' {
        Some('\u{D3}')
    } else if n.len() == 11 && n[0] == 'O' && n[1] == 'c' && n[2] == 'i' && n[3] == 'r' && n[4] == 'c' && n[5] == 'u' && n[6] == 'm' && n[7] == 'f' && n[8] == 'l' && n[9] == 'e' && n[10] == 'x' {
        Some('\u{D4}')
    } else if n.len() == 6 && n[0] == 'O' && n[1] == 't' && n[2] == 'i' && n[3] == 'l' && n[4] == 'd' && n[5] == 'e' {
        Some('\u{D5}')
    } else if n.len() == 9 && n[0] == 'O' && n[1] == 'd' && n[2] == 'i' && n[3] == 'e' && n[4] == 'r' && n[5] == 'e' && n[6] == 's' && n[7] == 'i' && n[8] == 's' {
        Some('\u{D6}')
    } else if n.len() == 8 && n[0] == 'm' && n[1] == 'u' && n[2] == 'l' && n[3] == 't' && n[4] == 'i' && n[5] == 'p' && n[6] == 'l' && n[7] == 'y' {
        Some('\u{D7}')
    } else if n.len() == 6 && n[0] == 'O' && n[1] == 's' && n[2] == 'l' && n[3] == 'a' && n[4] == 's' && n[5] == 'h' {
        Some('\u{D8}')
    } else if n.len() == 6 && n[0] == 'U' && n[1] == 'g' && n[2] == 'r' && n[3] == 'a' && n[4] == 'v' && n[5] == 'e' {
        Some('\u{D9}')
    } else if n.len() == 6 && n[0] == 'U' && n[1] == 'a' && n[2] == 'c' && n[3] == 'u' && n[4] == 't' && n[5] == 'e' {
        Some('\u{DA}')
    } else if n.len() == 11 && n[0] == 'U' && n[1] == 'c' && n[2] == 'i' && n[3] == 'r' && n[4] == 'c' && n[5] == 'u' && n[6] == 'm' && n[7] == 'f' && n[8] == 'l' && n[9] == 'e' && n[10] == 'x' {
        Some('\u{DB}')
    } else if n.len() == 9 && n[0] == 'U' && n[1] == 'd' && n[2] == 'i' && n[3] == 'e' && n[4] == 'r' && n[5] == 'e' && n[6] == 's' && n[7] == 'i' && n[8] == 's' {
        Some('\u{DC}')
    } else {
        None
    }
}

pub open spec fn glyph_group_14(n: Seq<char>) -> Option<char> {
    if n.len() == 6 && n[0] == 'Y' && n[1] == 'a' && n[2] == 'c' && n[3] == 'u' && n[4] == 't' && n[5] == 'e' {
        Some('\u{DD}')
    } else if n.len() == 5 && n[0] == 'T' && n[1] == 'h' && n[2] == 'o' && n[3] == 'r' && n[4] == 'n' {
        Some('\u{DE}')
    } else if n.len() == 10 && n[0] == 'g' && n[1] == 'e' && n[2] == 'r' && n[3] == 'm' && n[4] == 'a' && n[5] == 'n' && n[6] == 'd' && n[7] == 'b' && n[8] == 'l' && n[9] == 's' {
        Some('\u{DF}')
    } else if n.len() == 6 && n[0] == 'a' && n[1] == 'g' && n[2] == 'r' && n[3] == 'a' && n[4] == 'v' && n[5] == 'e' {
        Some('\u{E0}')
    } else if n.len() == 6 && n[0] == 'a' && n[1] == 'a' && n[2] == 'c' && n[3] == 'u' && n[4] == 't' && n[5] == 'e' {
        Some('\u{E1}')
    } else if n.len() == 11 && n[0] == 'a' && n[1] == 'c' && n[2] == 'i' && n[3] == 'r' && n[4] == 'c' && n[5] == 'u' && n[6] == 'm' && n[7] == 'f' && n[8] == 'l' && n[9] == 'e' && n[10] == 'x' {
        Some('\u{E2}')
    } else if n.len() == 6 && n[0] == 'a' && n[1] == 't' && n[2] == 'i' && n[3] == 'l' && n[4] == 'd' && n[5] == 'e' {
        Some('\u{E3}')
    } else if n.len() == 9 && n[0] == 'a' && n[1] == 'd' && n[2] == 'i' && n[3] == 'e' && n[4] == 'r' && n[5] == 'e' && n[6] == 's' && n[7] == 'i' && n[8] == 's' {
        Some('\u{E4}')
    } else if n.len() == 5 && n[0] == 'a' && n[1] == 'r' && n[2] == 'i' && n[3] == 'n' && n[4] == 'g' {
        Some('\u{E5}')
    } else if n.len() == 2 && n[0] == 'a' && n[1] == 'e' {
        Some('\u{E6}')
    } else if n.len() == 8 && n[0] == 'c' && n[1] == 'c' && n[2] == 'e' && n[3] == 'd' && n[4] == 'i' && n[5] == 'l' && n[6] == 'l' && n[7] == 'a' {
        Some('\u{E7}')
    } else if n.len() == 6 && n[0] == 'e' && n[1] == 'g' && n[2] == 'r' && n[3] == 'a' && n[4] == 'v' && n[5] == 'e' {
        Some('\u{E8}')
    } else {
        None
    }
}

fn lookup_group_14(n: &[char]) -> (r: Option<char>)
    ensures
        r == glyph_group_14(n@),
{
    if n.len() == 6 && n[0] == 'Y' && n[1] == 'a' && n[2] == 'c' && n[3] == 'u' && n[4] == 't' && n[5] == 'e' {
        Some('\u{DD}')
    } else if n.len() == 5 && n[0] == 'T' && n[1] == 'h' && n[2] == 'o' && n[3] == 'r' && n[4] == 'n' {
        Some('\u{DE}')
    } else if n.len() == 10 && n[0] == 'g' && n[1] == 'e' && n[2] == 'r' && n[3] == 'm' && n[4] == 'a' && n[5] == 'n' && n[6] == 'd' && n[7] == 'b' && n[8] == 'l' && n[9] == 's' {
        Some('\u{DF}')
    } else if n.len() == 6 && n[0] == 'a' && n[1] == 'g' && n[2] == 'r' && n[3] == 'a' && n[4] == 'v' && n[5] == 'e' {
        Some('\u{E0}')
    } else if n.len() == 6 && n[0] == 'a' && n[1] == 'a' && n[2] == 'c' && n[3] == 'u' && n[4] == 't' && n[5] == 'e' {
        Some('\u{E1}')
    } else if n.len() == 11 && n[0] == 'a' && n[1] == 'c' && n[2] == 'i' && n[3] == 'r' && n[4] == 'c' && n[5] == 'u' && n[6] == 'm' && n[7] == 'f' && n[8] == 'l' && n[9] == 'e' && n[10] == 'x' {
        Some('\u{E2}')
    } else if n.len() == 6 && n[0] == 'a' && n[1] == 't' && n[2] == 'i' && n[3] == 'l' && n[4] == 'd' && n[5] == 'e' {
        Some('\u{E3}')
    } else if n.len() == 9 && n[0] == 'a' && n[1] == 'd' && n[2] == 'i' && n[3] == 'e' && n[4] == 'r' && n[5] == 'e' && n[6] == 's' && n[7] == 'i' && n[8] == 's' {
        Some('\u{E4}')
    } else if n.len() == 5 && n[0] == 'a' && n[1] == 'r' && n[2] == 'i' && n[3] == 'n' && n[4] == 'g' {
        Some('\u{E5}')
    } else if n.len() == 2 && n[0] == 'a' && n[1] == 'e' {
        Some('\u{E6}')
    } else if n.len() == 8 && n[0] == 'c' && n[1] == 'c' && n[2] == 'e' && n[3] == 'd' && n[4] == 'i' && n[5] == 'l' && n[6] == 'l' && n[7] == 'a' {
        Some('\u{E7}')
    } else if n.len() == 6 && n[0] == 'e' && n[1] == 'g' && n[2] == 'r' && n[3] == 'a' && n[4] == 'v' && n[5] == 'e' {
        Some('\u{E8}')
    } else {
        None
    }
}

pub open spec fn glyph_group_15(n: Seq<char>) -> Option<char> {
    if n.len() == 6 && n[0] == 'e' && n[1] == 'a' && n[2] == 'c' && n[3] == 'u' && n[4] == 't' && n[5] == 'e' {
        Some('\u{E9}')
    } else if n.len() == 11 && n[0] == 'e' && n[1] == 'c' && n[2] == 'i' && n[3] == 'r' && n[4] == 'c' && n[5] == 'u' && n[6] == 'm' && n[7] == 'f' && n[8] == 'l' && n[9] == 'e' && n[10] == 'x' {
        Some('\u{EA}')
    } else if n.len() == 9 && n[0] == 'e' && n[1] == 'd' && n[2] == 'i' && n[3] == 'e' && n[4] == 'r' && n[5] == 'e' && n[6] == 's' && n[7] == 'i' && n[8] == 's' {
        Some('\u{EB}')
    } else if n.len() == 6 && n[0] == 'i' && n[1] == 'g' && n[2] == 'r' && n[3] == 'a' && n[4] == 'v' && n[5] == 'e' {
        Some('\u{EC}')
    } else if n.len() == 6 && n[0] == 'i' && n[1] == 'a' && n[2] == 'c' && n[3] == 'u' && n[4] == 't' && n[5] == 'e' {
        Some('\u{ED}')
    } else if n.len() == 11 && n[0] == 'i' && n[1] == 'c' && n[2] == 'i' && n[3] == 'r' && n[4] == 'c' && n[5] == 'u' && n[6] == 'm' && n[7] == 'f' && n[8] == 'l' && n[9] == 'e' && n[10] == 'x' {
        Some('\u{EE}')
    } else if n.len() == 9 && n[0] == 'i' && n[1] == 'd' && n[2] == 'i' && n[3] == 'e' && n[4] == 'r' && n[5] == 'e' && n[6] == 's' && n[7] == 'i' && n[8] == 's' {
        Some('\u{EF}')
    } else if n.len() == 3 && n[0] == 'e' && n[1] == 't' && n[2] == 'h' {
        Some('\u{F0}')
    } else if n.len() == 6 && n[0] == 'n' && n[1] == 't' && n[2] == 'i' && n[3] == 'l' && n[4] == 'd' && n[5] == 'e' {
        Some('\u{F1}')
    } else if n.len() == 6 && n[0] == 'o' && n[1] == 'g' && n[2] == 'r' && n[3] == 'a' && n[4] == 'v' && n[5] == 'e' {
        Some('\u{F2}')
    } else if n.len() == 6 && n[0] == 'o' && n[1] == 'a' && n[2] == 'c' && n[3] == 'u' && n[4] == 't' && n[5] == 'e' {
        Some('\u{F3}')
    } else if n.len() == 11 && n[0] == 'o' && n[1] == 'c' && n[2] == 'i' && n[3] == 'r' && n[4] == 'c' && n[5] == 'u' && n[6] == 'm' && n[7] == 'f' && n[8] == 'l' && n[9] == 'e' && n[10] == 'x' {
        Some('\u{F4}')
    } else {
        None
    }
}

fn lookup_group_15(n: &[char]) -> (r: Option<char>)
    ensures
        r == glyph_group_15(n@),
{
    if n.len() == 6 && n[0] == 'e' && n[1] == 'a' && n[2] == 'c' && n[3] == 'u' && n[4] == 't' && n[5] == 'e' {
        Some('\u{E9}')
    } else if n.len() == 11 && n[0] == 'e' && n[1] == 'c' && n[2] == 'i' && n[3] == 'r' && n[4] == 'c' && n[5] == 'u' && n[6] == 'm' && n[7] == 'f' && n[8] == 'l' && n[9] == 'e' && n[10] == 'x' {
        Some('\u{EA}')
    } else if n.len() == 9 && n[0] == 'e' && n[1] == 'd' && n[2] == 'i' && n[3] == 'e' && n[4] == 'r' && n[5] == 'e' && n[6] == 's' && n[7] == 'i' && n[8] == 's' {
        Some('\u{EB}')
    } else if n.len() == 6 && n[0] == 'i' && n[1] == 'g' && n[2] == 'r' && n[3] == 'a' && n[4] == 'v' && n[5] == 'e' {
        Some('\u{EC}')
    } else if n.len() == 6 && n[0] == 'i' && n[1] == 'a' && n[2] == 'c' && n[3] == 'u' && n[4] == 't' && n[5] == 'e' {
        Some('\u{ED}')
    } else if n.len() == 11 && n[0] == 'i' && n[1] == 'c' && n[2] == 'i' && n[3] == 'r' && n[4] == 'c' && n[5] == 'u' && n[6] == 'm' && n[7] == 'f' && n[8] == 'l' && n[9] == 'e' && n[10] == 'x' {
        Some('\u{EE}')
    } else if n.len() == 9 && n[0] == 'i' && n[1] == 'd' && n[2] == 'i' && n[3] == 'e' && n[4] == 'r' && n[5] == 'e' && n[6] == 's' && n[7] == 'i' && n[8] == 's' {
        Some('\u{EF}')
    } else if n.len() == 3 && n[0] == 'e' && n[1] == 't' && n[2] == 'h' {
        Some('\u{F0}')
    } else if n.len() == 6 && n[0] == 'n' && n[1] == 't' && n[2] == 'i' && n[3] == 'l' && n[4] == 'd' && n[5] == 'e' {
        Some('\u{F1}')
    } else if n.len() == 6 && n[0] == 'o' && n[1] == 'g' && n[2] == 'r' && n[3] == 'a' && n[4] == 'v' && n[5] == 'e' {
        Some('\u{F2}')
    } else if n.len() == 6 && n[0] == 'o' && n[1] == 'a' && n[2] == 'c' && n[3] == 'u' && n[4] == 't' && n[5] == 'e' {
        Some('\u{F3}')
    } else if n.len() == 11 && n[0] == 'o' && n[1] == 'c' && n[2] == 'i' && n[3] == 'r' && n[4] == 'c' && n[5] == 'u' && n[6] == 'm' && n[7] == 'f' && n[8] == 'l' && n[9] == 'e' && n[10] == 'x' {
        Some('\u{F4}')
    } else {
        None
    }
}

pub open spec fn glyph_group_16(n: Seq<char>) -> Option<char> {
    if n.len() == 6 && n[0] == 'o' && n[1] == 't' && n[2] == 'i' && n[3] == 'l' && n[4] == 'd' && n[5] == 'e' {
        Some('\u{F5}')
    } else if n.len() == 9 && n[0] == 'o' && n[1] == 'd' && n[2] == 'i' && n[3] == 'e' && n[4] == 'r' && n[5] == 'e' && n[6] == 's' && n[7] == 'i' && n[8] == 's' {
        Some('\u{F6}')
    } else if n.len() == 6 && n[0] == 'd' && n[1] == 'i' && n[2] == 'v' && n[3] == 'i' && n[4] == 'd' && n[5] == 'e' {
        Some('\u{F7}')
    } else if n.len() == 6 && n[0] == 'o' && n[1] == 's' && n[2] == 'l' && n[3] == 'a' && n[4] == 's' && n[5] == 'h' {
        Some('\u{F8}')
    } else if n.len() == 6 && n[0] == 'u' && n[1] == 'g' && n[2] == 'r' && n[3] == 'a' && n[4] == 'v' && n[5] == 'e' {
        Some('\u{F9}')
    } else if n.len() == 6 && n[0] == 'u' && n[1] == 'a' && n[2] == 'c' && n[3] == 'u' && n[4] == 't' && n[5] == 'e' {
        Some('\u{FA}')
    } else if n.len() == 11 && n[0] == 'u' && n[1] == 'c' && n[2] == 'i' && n[3] == 'r' && n[4] == 'c' && n[5] == 'u' && n[6] == 'm' && n[7] == 'f' && n[8] == 'l' && n[9] == 'e' && n[10] == 'x' {
        Some('\u{FB}')
    } else if n.len() == 9 && n[0] == 'u' && n[1] == 'd' && n[2] == 'i' && n[3] == 'e' && n[4] == 'r' && n[5] == 'e' && n[6] == 's' && n[7] == 'i' && n[8] == 's' {
        Some('\u{FC}')
    } else if n.len() == 6 && n[0] == 'y' && n[1] == 'a' && n[2] == 'c' && n[3] == 'u' && n[4] == 't' && n[5] == 'e' {
        Some('\u{FD}')
    } else if n.len() == 5 && n[0] == 't' && n[1] == 'h' && n[2] == 'o' && n[3] == 'r' && n[4] == 'n' {
        Some('\u{FE}')
    } else if n.len() == 9 && n[0] == 'y' && n[1] == 'd' && n[2] == 'i' && n[3] == 'e' && n[4] == 'r' && n[5] == 'e' && n[6] == 's' && n[7] == 'i' && n[8] == 's' {
        Some('\u{FF}')
    } else if n.len() == 4 && n[0] == 'e' && n[1] == 'u' && n[2] == 'r' && n[3] == 'o' {
        Some('\u{20AC}')
    } else {
        None
    }
}

fn lookup_group_16(n: &[char]) -> (r: Option<char>)
    ensures
        r == glyph_group_16(n@),
{
    if n.len() == 6 && n[0] == 'o' && n[1] == 't' && n[2] == 'i' && n[3] == 'l' && n[4] == 'd' && n[5] == 'e' {
        Some('\u{F5}')
    } else if n.len() == 9 && n[0] == 'o' && n[1] == 'd' && n[2] == 'i' && n[3] == 'e' && n[4] == 'r' && n[5] == 'e' && n[6] == 's' && n[7] == 'i' && n[8] == 's' {
        Some('\u{F6}')
    } else if n.len() == 6 && n[0] == 'd' && n[1] == 'i' && n[2] == 'v' && n[3] == 'i' && n[4] == 'd' && n[5] == 'e' {
        Some('\u{F7}')
    } else if n.len() == 6 && n[0] == 'o' && n[1] == 's' && n[2] == 'l' && n[3] == 'a' && n[4] == 's' && n[5] == 'h' {
        Some('\u{F8}')
    } else if n.len() == 6 && n[0] == 'u' && n[1] == 'g' && n[2] == 'r' && n[3] == 'a' && n[4] == 'v' && n[5] == 'e' {
        Some('\u{F9}')
    } else if n.len() == 6 && n[0] == 'u' && n[1] == 'a' && n[2] == 'c' && n[3] == 'u' && n[4] == 't' && n[5] == 'e' {
        Some('\u{FA}')
    } else if n.len() == 11 && n[0] == 'u' && n[1] == 'c' && n[2] == 'i' && n[3] == 'r' && n[4] == 'c' && n[5] == 'u' && n[6] == 'm' && n[7] == 'f' && n[8] == 'l' && n[9] == 'e' && n[10] == 'x' {
        Some('\u{FB}')
    } else if n.len() == 9 && n[0] == 'u' && n[1] == 'd' && n[2] == 'i' && n[3] == 'e' && n[4] == 'r' && n[5] == 'e' && n[6] == 's' && n[7] == 'i' && n[8] == 's' {
        Some('\u{FC}')
    } else if n.len() == 6 && n[0] == 'y' && n[1] == 'a' && n[2] == 'c' && n[3] == 'u' && n[4] == 't' && n[5] == 'e' {
        Some('\u{FD}')
    } else if n.len() == 5 && n[0] == 't' && n[1] == 'h' && n[2] == 'o' && n[3] == 'r' && n[4] == 'n' {
        Some('\u{FE}')
    } else if n.len() == 9 && n[0] == 'y' && n[1] == 'd' && n[2] == 'i' && n[3] == 'e' && n[4] == 'r' && n[5] == 'e' && n[6] == 's' && n[7] == 'i' && n[8] == 's' {
        Some('\u{FF}')
    } else if n.len() == 4 && n[0] == 'e' && n[1] == 'u' && n[2] == 'r' && n[3] == 'o' {
        Some('\u{20AC}')
    } else {
        None
    }
}

pub open spec fn glyph_group_17(n: Seq<char>) -> Option<char> {
    if n.len() == 6 && n[0] == 'f' && n[1] == 'l' && n[2] == 'o' && n[3] == 'r' && n[4] == 'i' && n[5] == 'n' {
        Some('\u{192}')
    } else if n.len() == 5 && n[0] == 'm' && n[1] == 'i' && n[2] == 'n' && n[3] == 'u' && n[4] == 's' {
        Some('\u{2212}')
    } else if n.len() == 8 && n[0] == 'f' && n[1] == 'r' && n[2] == 'a' && n[3] == 'c' && n[4] == 't' && n[5] == 'i' && n[6] == 'o' && n[7] == 'n' {
        Some('\u{2044}')
    } else if n.len() == 10 && n[0] == 'c' && n[1] == 'i' && n[2] == 'r' && n[3] == 'c' && n[4] == 'u' && n[5] == 'm' && n[6] == 'f' && n[7] == 'l' && n[8] == 'e' && n[9] == 'x' {
        Some('\u{2C6}')
    } else if n.len() == 5 && n[0] == 't' && n[1] == 'i' && n[2] == 'l' && n[3] == 'd' && n[4] == 'e' {
        Some('\u{2DC}')
    } else if n.len() == 2 && n[0] == 'O' && n[1] == 'E' {
        Some('\u{152}')
    } else if n.len() == 2 && n[0] == 'o' && n[1] == 'e' {
        Some('\u{153}')
    } else if n.len() == 6 && n[0] == 'S' && n[1] == 'c' && n[2] == 'a' && n[3] == 'r' && n[4] == 'o' && n[5] == 'n' {
        Some('\u{160}')
    } else if n.len() == 6 && n[0] == 's' && n[1] == 'c' && n[2] == 'a' && n[3] == 'r' && n[4] == 'o' && n[5] == 'n' {
        Some('\u{161}')
    } else if n.len() == 6 && n[0] == 'Z' && n[1] == 'c' && n[2] == 'a' && n[3] == 'r' && n[4] == 'o' && n[5] == 'n' {
        Some('\u{17D}')
    } else if n.len() == 6 && n[0] == 'z' && n[1] == 'c' && n[2] == 'a' && n[3] == 'r' && n[4] == 'o' && n[5] == 'n' {
        Some('\u{17E}')
    } else if n.len() == 9 && n[0] == 'Y' && n[1] == 'd' && n[2] == 'i' && n[3] == 'e' && n[4] == 'r' && n[5] == 'e' && n[6] == 's' && n[7] == 'i' && n[8] == 's' {
        Some('\u{178}')
    } else {
        None
    }
}

fn lookup_group_17(n: &[char]) -> (r: Option<char>)
    ensures
        r == glyph_group_17(n@),
{
    if n.len() == 6 && n[0] == 'f' && n[1] == 'l' && n[2] == 'o' && n[3] == 'r' && n[4] == 'i' && n[5] == 'n' {
        Some('\u{192}')
    } else if n.len() == 5 && n[0] == 'm' && n[1] == 'i' && n[2] == 'n' && n[3] == 'u' && n[4] == 's' {
        Some('\u{2212}')
    } else if n.len() == 8 && n[0] == 'f' && n[1] == 'r' && n[2] == 'a' && n[3] == 'c' && n[4] == 't' && n[5] == 'i' && n[6] == 'o' && n[7] == 'n' {
        Some('\u{2044}')
    } else if n.len() == 10 && n[0] == 'c' && n[1] == 'i' && n[2] == 'r' && n[3] == 'c' && n[4] == 'u' && n[5] == 'm' && n[6] == 'f' && n[7] == 'l' && n[8] == 'e' && n[9] == 'x' {
        Some('\u{2C6}')
    } else if n.len() == 5 && n[0] == 't' && n[1] == 'i' && n[2] == 'l' && n[3] == 'd' && n[4] == 'e' {
        Some('\u{2DC}')
    } else if n.len() == 2 && n[0] == 'O' && n[1] == 'E' {
        Some('\u{152}')
    } else if n.len() == 2 && n[0] == 'o' && n[1] == 'e' {
        Some('\u{153}')
    } else if n.len() == 6 && n[0] == 'S' && n[1] == 'c' && n[2] == 'a' && n[3] == 'r' && n[4] == 'o' && n[5] == 'n' {
        Some('\u{160}')
    } else if n.len() == 6 && n[0] == 's' && n[1] == 'c' && n[2] == 'a' && n[3] == 'r' && n[4] == 'o' && n[5] == 'n' {
        Some('\u{161}')
    } else if n.len() == 6 && n[0] == 'Z' && n[1] == 'c' && n[2] == 'a' && n[3] == 'r' && n[4] == 'o' && n[5] == 'n' {
        Some('\u{17D}')
    } else if n.len() == 6 && n[0] == 'z' && n[1] == 'c' && n[2] == 'a' && n[3] == 'r' && n[4] == 'o' && n[5] == 'n' {
        Some('\u{17E}')
    } else if n.len() == 9 && n[0] == 'Y' && n[1] == 'd' && n[2] == 'i' && n[3] == 'e' && n[4] == 'r' && n[5] == 'e' && n[6] == 's' && n[7] == 'i' && n[8] == 's' {
        Some('\u{178}')
    } else {
        None
    }
}

pub open spec fn glyph_group_18(n: Seq<char>) -> Option<char> {
    if n.len() == 8 && n[0] == 'd' && n[1] == 'o' && n[2] == 't' && n[3] == 'l' && n[4] == 'e' && n[5] == 's' && n[6] == 's' && n[7] == 'i' {
        Some('\u{131}')
    } else if n.len() == 6 && n[0] == 'L' && n[1] == 's' && n[2] == 'l' && n[3] == 'a' && n[4] == 's' && n[5] == 'h' {
        Some('\u{141}')
    } else if n.len() == 6 && n[0] == 'l' && n[1] == 's' && n[2] == 'l' && n[3] == 'a' && n[4] == 's' && n[5] == 'h' {
        Some('\u{142}')
    } else {
        None
    }
}

fn lookup_group_18(n: &[char]) -> (r: Option<char>)
    ensures
        r == glyph_group_18(n@),
{
    if n.len() == 8 && n[0] == 'd' && n[1] == 'o' && n[2] == 't' && n[3] == 'l' && n[4] == 'e' && n[5] == 's' && n[6] == 's' && n[7] == 'i' {
        Some('\u{131}')
    } else if n.len() == 6 && n[0] == 'L' && n[1] == 's' && n[2] == 'l' && n[3] == 'a' && n[4] == 's' && n[5] == 'h' {
        Some('\u{141}')
    } else if n.len() == 6 && n[0] == 'l' && n[1] == 's' && n[2] == 'l' && n[3] == 'a' && n[4] == 's' && n[5] == 'h' {
        Some('\u{142}')
    } else {
        None
    }
}

/// The character that a standard glyph name stands for: the names of the
/// standard Latin text encodings, plus common typographic glyphs.
pub open spec fn glyph_char(n: Seq<char>) -> Option<char> {
    if glyph_group_0(n) is Some {
        glyph_group_0(n)
    } else if glyph_group_1(n) is Some {
        glyph_group_1(n)
    } else if glyph_group_2(n) is Some {
        glyph_group_2(n)
    } else if glyph_group_3(n) is Some {
        glyph_group_3(n)
    } else if glyph_group_4(n) is Some {
        glyph_group_4(n)
    } else if glyph_group_5(n) is Some {
        glyph_group_5(n)
    } else if glyph_group_6(n) is Some {
        glyph_group_6(n)
    } else if glyph_group_7(n) is Some {
        glyph_group_7(n)
    } else if glyph_group_8(n) is Some {
        glyph_group_8(n)
    } else if glyph_group_9(n) is Some {
        glyph_group_9(n)
    } else if glyph_group_10(n) is Some {
        glyph_group_10(n)
    } else if glyph_group_11(n) is Some {
        glyph_group_11(n)
    } else if glyph_group_12(n) is Some {
        glyph_group_12(n)
    } else if glyph_group_13(n) is Some {
        glyph_group_13(n)
    } else if glyph_group_14(n) is Some {
        glyph_group_14(n)
    } else if glyph_group_15(n) is Some {
        glyph_group_15(n)
    } else if glyph_group_16(n) is Some {
        glyph_group_16(n)
    } else if glyph_group_17(n) is Some {
        glyph_group_17(n)
    } else if glyph_group_18(n) is Some {
        glyph_group_18(n)
    } else {
        None
    }
}

/// Look up a standard glyph name.
pub fn glyph_to_char(n: &[char]) -> (r: Option<char>)
    ensures
        r == glyph_char(n@),
{
    let g = lookup_group_0(n);
    if g.is_some() {
        return g;
    }
    let g = lookup_group_1(n);
    if g.is_some() {
        return g;
    }
    let g = lookup_group_2(n);
    if g.is_some() {
        return g;
    }
    let g = lookup_group_3(n);
    if g.is_some() {
        return g;
    }
    let g = lookup_group_4(n);
    if g.is_some() {
        return g;
    }
    let g = lookup_group_5(n);
    if g.is_some() {
        return g;
    }
    let g = lookup_group_6(n);
    if g.is_some() {
        return g;
    }
    let g = lookup_group_7(n);
    if g.is_some() {
        return g;
    }
    let g = lookup_group_8(n);
    if g.is_some() {
        return g;
    }
    let g = lookup_group_9(n);
    if g.is_some() {
        return g;
    }
    let g = lookup_group_10(n);
    if g.is_some() {
        return g;
    }
    let g = lookup_group_11(n);
    if g.is_some() {
        return g;
    }
    let g = lookup_group_12(n);
    if g.is_some() {
        return g;
    }
    let g = lookup_group_13(n);
    if g.is_some() {
        return g;
    }
    let g = lookup_group_14(n);
    if g.is_some() {
        return g;
    }
    let g = lookup_group_15(n);
    if g.is_some() {
        return g;
    }
    let g = lookup_group_16(n);
    if g.is_some() {
        return g;
    }
    let g = lookup_group_17(n);
    if g.is_some() {
        return g;
    }
    let g = lookup_group_18(n);
    if g.is_some() {
        return g;
    }
    None
}

} // verus!
