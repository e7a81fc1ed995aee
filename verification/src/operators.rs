//! The sixteen categories of PDF content-stream operators.
use vstd::prelude::*;
use crate::chars::{chars_of, eq_str};
use crate::tokenizer::{ascii_lower, spec_is_pdf_operator, starts_operand};
use crate::pages::{decimal_text, lemma_decimal_text};
use crate::text::is_digit;
use vstd::utf8::{encode_utf8, is_ascii_chars, is_ascii_chars_encode_utf8};

verus! {

/// The operators of category `cat`, in the order the PDF reference lists
/// them; no operator for an unknown category.
pub open spec fn spec_ops_for_category(cat: Seq<char>) -> Seq<Seq<char>> {
    if cat == "gstate"@ {
        seq!["w"@, "J"@, "j"@, "M"@, "d"@, "ri"@, "i"@, "gs"@]
    } else if cat == "special"@ {
        seq!["q"@, "Q"@, "cm"@]
    } else if cat == "path"@ {
        seq!["m"@, "l"@, "c"@, "v"@, "y"@, "h"@, "re"@]
    } else if cat == "paint"@ {
        seq!["S"@, "s"@, "f"@, "F"@, "f*"@, "B"@, "B*"@, "b"@, "b*"@, "n"@]
    } else if cat == "clip"@ {
        seq!["W"@, "W*"@]
    } else if cat == "textobj"@ {
        seq!["BT"@, "ET"@]
    } else if cat == "textstate"@ {
        seq!["Tc"@, "Tw"@, "Tz"@, "TL"@, "Tf"@, "Tr"@, "Ts"@]
    } else if cat == "textpos"@ {
        seq!["Td"@, "TD"@, "Tm"@, "T*"@]
    } else if cat == "textshow"@ {
        seq!["Tj"@, "TJ"@, "'"@, "\""@]
    } else if cat == "type3"@ {
        seq!["d0"@, "d1"@]
    } else if cat == "color"@ {
        seq!["CS"@, "cs"@, "SC"@, "SCN"@, "sc"@, "scn"@, "G"@, "g"@, "RG"@, "rg"@, "K"@, "k"@]
    } else if cat == "shading"@ {
        seq!["sh"@]
    } else if cat == "inline"@ {
        seq!["BI"@, "ID"@, "EI"@]
    } else if cat == "xobject"@ {
        seq!["Do"@]
    } else if cat == "marked"@ {
        seq!["MP"@, "DP"@, "BMC"@, "BDC"@, "EMC"@]
    } else if cat == "compat"@ {
        seq!["BX"@, "EX"@]
    } else {
        Seq::empty()
    }
}

/// The category of operator `op`, `"other"` for an operator of none.
pub open spec fn spec_category_for_op(op: Seq<char>) -> Seq<char> {
    if op == "w"@ || op == "J"@ || op == "j"@ || op == "M"@ || op == "d"@ || op == "ri"@ || op == "i"@ || op == "gs"@ {
        "gstate"@
    } else if op == "q"@ || op == "Q"@ || op == "cm"@ {
        "special"@
    } else if op == "m"@ || op == "l"@ || op == "c"@ || op == "v"@ || op == "y"@ || op == "h"@ || op == "re"@ {
        "path"@
    } else if op == "S"@ || op == "s"@ || op == "f"@ || op == "F"@ || op == "f*"@ || op == "B"@ || op == "B*"@ || op == "b"@ || op == "b*"@ || op == "n"@ {
        "paint"@
    } else if op == "W"@ || op == "W*"@ {
        "clip"@
    } else if op == "BT"@ || op == "ET"@ {
        "textobj"@
    } else if op == "Tc"@ || op == "Tw"@ || op == "Tz"@ || op == "TL"@ || op == "Tf"@ || op == "Tr"@ || op == "Ts"@ {
        "textstate"@
    } else if op == "Td"@ || op == "TD"@ || op == "Tm"@ || op == "T*"@ {
        "textpos"@
    } else if op == "Tj"@ || op == "TJ"@ || op == "'"@ || op == "\""@ {
        "textshow"@
    } else if op == "d0"@ || op == "d1"@ {
        "type3"@
    } else if op == "CS"@ || op == "cs"@ || op == "SC"@ || op == "SCN"@ || op == "sc"@ || op == "scn"@ || op == "G"@ || op == "g"@ || op == "RG"@ || op == "rg"@ || op == "K"@ || op == "k"@ {
        "color"@
    } else if op == "sh"@ {
        "shading"@
    } else if op == "BI"@ || op == "ID"@ || op == "EI"@ {
        "inline"@
    } else if op == "Do"@ {
        "xobject"@
    } else if op == "MP"@ || op == "DP"@ || op == "BMC"@ || op == "BDC"@ || op == "EMC"@ {
        "marked"@
    } else if op == "BX"@ || op == "EX"@ {
        "compat"@
    } else {
        "other"@
    }
}

/// Views of a list of string slices.
pub open spec fn str_views(v: Seq<&str>) -> Seq<Seq<char>> {
    v.map_values(|s: &str| s@)
}

/// The operators that belong to category `cat` (one of `gstate`, `special`,
/// `path`, `paint`, `clip`, `textobj`, `textstate`, `textpos`, `textshow`,
/// `type3`, `color`, `shading`, `inline`, `xobject`, `marked`, `compat`);
/// empty for any other name.
pub fn ops_for_category(cat: &str) -> (res: Vec<&'static str>)
    ensures
        str_views(res@) == spec_ops_for_category(cat@),
{
    let c = chars_of(cat);
    if eq_str(&c, "gstate") {
        let v = vec!["w", "J", "j", "M", "d", "ri", "i", "gs"];
        assert(str_views(v@) =~= seq!["w"@, "J"@, "j"@, "M"@, "d"@, "ri"@, "i"@, "gs"@]);
        v
    } else if eq_str(&c, "special") {
        let v = vec!["q", "Q", "cm"];
        assert(str_views(v@) =~= seq!["q"@, "Q"@, "cm"@]);
        v
    } else if eq_str(&c, "path") {
        let v = vec!["m", "l", "c", "v", "y", "h", "re"];
        assert(str_views(v@) =~= seq!["m"@, "l"@, "c"@, "v"@, "y"@, "h"@, "re"@]);
        v
    } else if eq_str(&c, "paint") {
        let v = vec!["S", "s", "f", "F", "f*", "B", "B*", "b", "b*", "n"];
        assert(str_views(v@) =~= seq!["S"@, "s"@, "f"@, "F"@, "f*"@, "B"@, "B*"@, "b"@, "b*"@, "n"@]);
        v
    } else if eq_str(&c, "clip") {
        let v = vec!["W", "W*"];
        assert(str_views(v@) =~= seq!["W"@, "W*"@]);
        v
    } else if eq_str(&c, "textobj") {
        let v = vec!["BT", "ET"];
        assert(str_views(v@) =~= seq!["BT"@, "ET"@]);
        v
    } else if eq_str(&c, "textstate") {
        let v = vec!["Tc", "Tw", "Tz", "TL", "Tf", "Tr", "Ts"];
        assert(str_views(v@) =~= seq!["Tc"@, "Tw"@, "Tz"@, "TL"@, "Tf"@, "Tr"@, "Ts"@]);
        v
    } else if eq_str(&c, "textpos") {
        let v = vec!["Td", "TD", "Tm", "T*"];
        assert(str_views(v@) =~= seq!["Td"@, "TD"@, "Tm"@, "T*"@]);
        v
    } else if eq_str(&c, "textshow") {
        let v = vec!["Tj", "TJ", "'", "\""];
        assert(str_views(v@) =~= seq!["Tj"@, "TJ"@, "'"@, "\""@]);
        v
    } else if eq_str(&c, "type3") {
        let v = vec!["d0", "d1"];
        assert(str_views(v@) =~= seq!["d0"@, "d1"@]);
        v
    } else if eq_str(&c, "color") {
        let v = vec!["CS", "cs", "SC", "SCN", "sc", "scn", "G", "g", "RG", "rg", "K", "k"];
        assert(str_views(v@) =~= seq!["CS"@, "cs"@, "SC"@, "SCN"@, "sc"@, "scn"@, "G"@, "g"@, "RG"@, "rg"@, "K"@, "k"@]);
        v
    } else if eq_str(&c, "shading") {
        let v = vec!["sh"];
        assert(str_views(v@) =~= seq!["sh"@]);
        v
    } else if eq_str(&c, "inline") {
        let v = vec!["BI", "ID", "EI"];
        assert(str_views(v@) =~= seq!["BI"@, "ID"@, "EI"@]);
        v
    } else if eq_str(&c, "xobject") {
        let v = vec!["Do"];
        assert(str_views(v@) =~= seq!["Do"@]);
        v
    } else if eq_str(&c, "marked") {
        let v = vec!["MP", "DP", "BMC", "BDC", "EMC"];
        assert(str_views(v@) =~= seq!["MP"@, "DP"@, "BMC"@, "BDC"@, "EMC"@]);
        v
    } else if eq_str(&c, "compat") {
        let v = vec!["BX", "EX"];
        assert(str_views(v@) =~= seq!["BX"@, "EX"@]);
        v
    } else {
        let v: Vec<&'static str> = Vec::new();
        assert(str_views(v@) =~= Seq::<Seq<char>>::empty());
        v
    }
}

/// The category that operator `op` belongs to, or `"other"`.
pub fn category_for_op(op: &str) -> (res: &'static str)
    ensures
        res@ == spec_category_for_op(op@),
{
    let o = chars_of(op);
    if eq_str(&o, "w") || eq_str(&o, "J") || eq_str(&o, "j") || eq_str(&o, "M") || eq_str(&o, "d") || eq_str(&o, "ri") || eq_str(&o, "i") || eq_str(&o, "gs") {
        "gstate"
    } else if eq_str(&o, "q") || eq_str(&o, "Q") || eq_str(&o, "cm") {
        "special"
    } else if eq_str(&o, "m") || eq_str(&o, "l") || eq_str(&o, "c") || eq_str(&o, "v") || eq_str(&o, "y") || eq_str(&o, "h") || eq_str(&o, "re") {
        "path"
    } else if eq_str(&o, "S") || eq_str(&o, "s") || eq_str(&o, "f") || eq_str(&o, "F") || eq_str(&o, "f*") || eq_str(&o, "B") || eq_str(&o, "B*") || eq_str(&o, "b") || eq_str(&o, "b*") || eq_str(&o, "n") {
        "paint"
    } else if eq_str(&o, "W") || eq_str(&o, "W*") {
        "clip"
    } else if eq_str(&o, "BT") || eq_str(&o, "ET") {
        "textobj"
    } else if eq_str(&o, "Tc") || eq_str(&o, "Tw") || eq_str(&o, "Tz") || eq_str(&o, "TL") || eq_str(&o, "Tf") || eq_str(&o, "Tr") || eq_str(&o, "Ts") {
        "textstate"
    } else if eq_str(&o, "Td") || eq_str(&o, "TD") || eq_str(&o, "Tm") || eq_str(&o, "T*") {
        "textpos"
    } else if eq_str(&o, "Tj") || eq_str(&o, "TJ") || eq_str(&o, "'") || eq_str(&o, "\"") {
        "textshow"
    } else if eq_str(&o, "d0") || eq_str(&o, "d1") {
        "type3"
    } else if eq_str(&o, "CS") || eq_str(&o, "cs") || eq_str(&o, "SC") || eq_str(&o, "SCN") || eq_str(&o, "sc") || eq_str(&o, "scn") || eq_str(&o, "G") || eq_str(&o, "g") || eq_str(&o, "RG") || eq_str(&o, "rg") || eq_str(&o, "K") || eq_str(&o, "k") {
        "color"
    } else if eq_str(&o, "sh") {
        "shading"
    } else if eq_str(&o, "BI") || eq_str(&o, "ID") || eq_str(&o, "EI") {
        "inline"
    } else if eq_str(&o, "Do") {
        "xobject"
    } else if eq_str(&o, "MP") || eq_str(&o, "DP") || eq_str(&o, "BMC") || eq_str(&o, "BDC") || eq_str(&o, "EMC") {
        "marked"
    } else if eq_str(&o, "BX") || eq_str(&o, "EX") {
        "compat"
    } else {
        "other"
    }
}


/// The characters of the operator and category names used above.
proof fn lemma_category_literals()
    ensures
        "'"@.len() == 1,
        "'"@[0] == '\'',
        "B"@.len() == 1,
        "B"@[0] == 'B',
        "B*"@.len() == 2,
        "B*"@[0] == 'B',
        "B*"@[1] == '*',
        "BDC"@.len() == 3,
        "BDC"@[0] == 'B',
        "BDC"@[1] == 'D',
        "BDC"@[2] == 'C',
        "BI"@.len() == 2,
        "BI"@[0] == 'B',
        "BI"@[1] == 'I',
        "BMC"@.len() == 3,
        "BMC"@[0] == 'B',
        "BMC"@[1] == 'M',
        "BMC"@[2] == 'C',
        "BT"@.len() == 2,
        "BT"@[0] == 'B',
        "BT"@[1] == 'T',
        "BX"@.len() == 2,
        "BX"@[0] == 'B',
        "BX"@[1] == 'X',
        "CS"@.len() == 2,
        "CS"@[0] == 'C',
        "CS"@[1] == 'S',
        "DP"@.len() == 2,
        "DP"@[0] == 'D',
        "DP"@[1] == 'P',
        "Do"@.len() == 2,
        "Do"@[0] == 'D',
        "Do"@[1] == 'o',
        "EI"@.len() == 2,
        "EI"@[0] == 'E',
        "EI"@[1] == 'I',
        "EMC"@.len() == 3,
        "EMC"@[0] == 'E',
        "EMC"@[1] == 'M',
        "EMC"@[2] == 'C',
        "ET"@.len() == 2,
        "ET"@[0] == 'E',
        "ET"@[1] == 'T',
        "EX"@.len() == 2,
        "EX"@[0] == 'E',
        "EX"@[1] == 'X',
        "F"@.len() == 1,
        "F"@[0] == 'F',
        "G"@.len() == 1,
        "G"@[0] == 'G',
        "ID"@.len() == 2,
        "ID"@[0] == 'I',
        "ID"@[1] == 'D',
        "J"@.len() == 1,
        "J"@[0] == 'J',
        "K"@.len() == 1,
        "K"@[0] == 'K',
        "M"@.len() == 1,
        "M"@[0] == 'M',
        "MP"@.len() == 2,
        "MP"@[0] == 'M',
        "MP"@[1] == 'P',
        "Q"@.len() == 1,
        "Q"@[0] == 'Q',
        "RG"@.len() == 2,
        "RG"@[0] == 'R',
        "RG"@[1] == 'G',
        "S"@.len() == 1,
        "S"@[0] == 'S',
        "SC"@.len() == 2,
        "SC"@[0] == 'S',
        "SC"@[1] == 'C',
        "SCN"@.len() == 3,
        "SCN"@[0] == 'S',
        "SCN"@[1] == 'C',
        "SCN"@[2] == 'N',
        "T*"@.len() == 2,
        "T*"@[0] == 'T',
        "T*"@[1] == '*',
        "TD"@.len() == 2,
        "TD"@[0] == 'T',
        "TD"@[1] == 'D',
        "TJ"@.len() == 2,
        "TJ"@[0] == 'T',
        "TJ"@[1] == 'J',
        "TL"@.len() == 2,
        "TL"@[0] == 'T',
        "TL"@[1] == 'L',
        "Tc"@.len() == 2,
        "Tc"@[0] == 'T',
        "Tc"@[1] == 'c',
        "Td"@.len() == 2,
        "Td"@[0] == 'T',
        "Td"@[1] == 'd',
        "Tf"@.len() == 2,
        "Tf"@[0] == 'T',
        "Tf"@[1] == 'f',
        "Tj"@.len() == 2,
        "Tj"@[0] == 'T',
        "Tj"@[1] == 'j',
        "Tm"@.len() == 2,
        "Tm"@[0] == 'T',
        "Tm"@[1] == 'm',
        "Tr"@.len() == 2,
        "Tr"@[0] == 'T',
        "Tr"@[1] == 'r',
        "Ts"@.len() == 2,
        "Ts"@[0] == 'T',
        "Ts"@[1] == 's',
        "Tw"@.len() == 2,
        "Tw"@[0] == 'T',
        "Tw"@[1] == 'w',
        "Tz"@.len() == 2,
        "Tz"@[0] == 'T',
        "Tz"@[1] == 'z',
        "W"@.len() == 1,
        "W"@[0] == 'W',
        "W*"@.len() == 2,
        "W*"@[0] == 'W',
        "W*"@[1] == '*',
        "\""@.len() == 1,
        "\""@[0] == '"',
        "b"@.len() == 1,
        "b"@[0] == 'b',
        "b*"@.len() == 2,
        "b*"@[0] == 'b',
        "b*"@[1] == '*',
        "c"@.len() == 1,
        "c"@[0] == 'c',
        "clip"@.len() == 4,
        "clip"@[0] == 'c',
        "clip"@[1] == 'l',
        "clip"@[2] == 'i',
        "clip"@[3] == 'p',
        "cm"@.len() == 2,
        "cm"@[0] == 'c',
        "cm"@[1] == 'm',
        "color"@.len() == 5,
        "color"@[0] == 'c',
        "color"@[1] == 'o',
        "color"@[2] == 'l',
        "color"@[3] == 'o',
        "color"@[4] == 'r',
        "compat"@.len() == 6,
        "compat"@[0] == 'c',
        "compat"@[1] == 'o',
        "compat"@[2] == 'm',
        "compat"@[3] == 'p',
        "compat"@[4] == 'a',
        "compat"@[5] == 't',
        "cs"@.len() == 2,
        "cs"@[0] == 'c',
        "cs"@[1] == 's',
        "d"@.len() == 1,
        "d"@[0] == 'd',
        "d0"@.len() == 2,
        "d0"@[0] == 'd',
        "d0"@[1] == '0',
        "d1"@.len() == 2,
        "d1"@[0] == 'd',
        "d1"@[1] == '1',
        "f"@.len() == 1,
        "f"@[0] == 'f',
        "f*"@.len() == 2,
        "f*"@[0] == 'f',
        "f*"@[1] == '*',
        "g"@.len() == 1,
        "g"@[0] == 'g',
        "gs"@.len() == 2,
        "gs"@[0] == 'g',
        "gs"@[1] == 's',
        "gstate"@.len() == 6,
        "gstate"@[0] == 'g',
        "gstate"@[1] == 's',
        "gstate"@[2] == 't',
        "gstate"@[3] == 'a',
        "gstate"@[4] == 't',
        "gstate"@[5] == 'e',
        "h"@.len() == 1,
        "h"@[0] == 'h',
        "i"@.len() == 1,
        "i"@[0] == 'i',
        "inline"@.len() == 6,
        "inline"@[0] == 'i',
        "inline"@[1] == 'n',
        "inline"@[2] == 'l',
        "inline"@[3] == 'i',
        "inline"@[4] == 'n',
        "inline"@[5] == 'e',
        "j"@.len() == 1,
        "j"@[0] == 'j',
        "k"@.len() == 1,
        "k"@[0] == 'k',
        "l"@.len() == 1,
        "l"@[0] == 'l',
        "m"@.len() == 1,
        "m"@[0] == 'm',
        "marked"@.len() == 6,
        "marked"@[0] == 'm',
        "marked"@[1] == 'a',
        "marked"@[2] == 'r',
        "marked"@[3] == 'k',
        "marked"@[4] == 'e',
        "marked"@[5] == 'd',
        "n"@.len() == 1,
        "n"@[0] == 'n',
        "other"@.len() == 5,
        "other"@[0] == 'o',
        "other"@[1] == 't',
        "other"@[2] == 'h',
        "other"@[3] == 'e',
        "other"@[4] == 'r',
        "paint"@.len() == 5,
        "paint"@[0] == 'p',
        "paint"@[1] == 'a',
        "paint"@[2] == 'i',
        "paint"@[3] == 'n',
        "paint"@[4] == 't',
        "path"@.len() == 4,
        "path"@[0] == 'p',
        "path"@[1] == 'a',
        "path"@[2] == 't',
        "path"@[3] == 'h',
        "q"@.len() == 1,
        "q"@[0] == 'q',
        "re"@.len() == 2,
        "re"@[0] == 'r',
        "re"@[1] == 'e',
        "rg"@.len() == 2,
        "rg"@[0] == 'r',
        "rg"@[1] == 'g',
        "ri"@.len() == 2,
        "ri"@[0] == 'r',
        "ri"@[1] == 'i',
        "s"@.len() == 1,
        "s"@[0] == 's',
        "sc"@.len() == 2,
        "sc"@[0] == 's',
        "sc"@[1] == 'c',
        "scn"@.len() == 3,
        "scn"@[0] == 's',
        "scn"@[1] == 'c',
        "scn"@[2] == 'n',
        "sh"@.len() == 2,
        "sh"@[0] == 's',
        "sh"@[1] == 'h',
        "shading"@.len() == 7,
        "shading"@[0] == 's',
        "shading"@[1] == 'h',
        "shading"@[2] == 'a',
        "shading"@[3] == 'd',
        "shading"@[4] == 'i',
        "shading"@[5] == 'n',
        "shading"@[6] == 'g',
        "special"@.len() == 7,
        "special"@[0] == 's',
        "special"@[1] == 'p',
        "special"@[2] == 'e',
        "special"@[3] == 'c',
        "special"@[4] == 'i',
        "special"@[5] == 'a',
        "special"@[6] == 'l',
        "textobj"@.len() == 7,
        "textobj"@[0] == 't',
        "textobj"@[1] == 'e',
        "textobj"@[2] == 'x',
        "textobj"@[3] == 't',
        "textobj"@[4] == 'o',
        "textobj"@[5] == 'b',
        "textobj"@[6] == 'j',
        "textpos"@.len() == 7,
        "textpos"@[0] == 't',
        "textpos"@[1] == 'e',
        "textpos"@[2] == 'x',
        "textpos"@[3] == 't',
        "textpos"@[4] == 'p',
        "textpos"@[5] == 'o',
        "textpos"@[6] == 's',
        "textshow"@.len() == 8,
        "textshow"@[0] == 't',
        "textshow"@[1] == 'e',
        "textshow"@[2] == 'x',
        "textshow"@[3] == 't',
        "textshow"@[4] == 's',
        "textshow"@[5] == 'h',
        "textshow"@[6] == 'o',
        "textshow"@[7] == 'w',
        "textstate"@.len() == 9,
        "textstate"@[0] == 't',
        "textstate"@[1] == 'e',
        "textstate"@[2] == 'x',
        "textstate"@[3] == 't',
        "textstate"@[4] == 's',
        "textstate"@[5] == 't',
        "textstate"@[6] == 'a',
        "textstate"@[7] == 't',
        "textstate"@[8] == 'e',
        "type3"@.len() == 5,
        "type3"@[0] == 't',
        "type3"@[1] == 'y',
        "type3"@[2] == 'p',
        "type3"@[3] == 'e',
        "type3"@[4] == '3',
        "v"@.len() == 1,
        "v"@[0] == 'v',
        "w"@.len() == 1,
        "w"@[0] == 'w',
        "xobject"@.len() == 7,
        "xobject"@[0] == 'x',
        "xobject"@[1] == 'o',
        "xobject"@[2] == 'b',
        "xobject"@[3] == 'j',
        "xobject"@[4] == 'e',
        "xobject"@[5] == 'c',
        "xobject"@[6] == 't',
        "y"@.len() == 1,
        "y"@[0] == 'y',
{
    reveal_strlit("'");
    reveal_strlit("B");
    reveal_strlit("B*");
    reveal_strlit("BDC");
    reveal_strlit("BI");
    reveal_strlit("BMC");
    reveal_strlit("BT");
    reveal_strlit("BX");
    reveal_strlit("CS");
    reveal_strlit("DP");
    reveal_strlit("Do");
    reveal_strlit("EI");
    reveal_strlit("EMC");
    reveal_strlit("ET");
    reveal_strlit("EX");
    reveal_strlit("F");
    reveal_strlit("G");
    reveal_strlit("ID");
    reveal_strlit("J");
    reveal_strlit("K");
    reveal_strlit("M");
    reveal_strlit("MP");
    reveal_strlit("Q");
    reveal_strlit("RG");
    reveal_strlit("S");
    reveal_strlit("SC");
    reveal_strlit("SCN");
    reveal_strlit("T*");
    reveal_strlit("TD");
    reveal_strlit("TJ");
    reveal_strlit("TL");
    reveal_strlit("Tc");
    reveal_strlit("Td");
    reveal_strlit("Tf");
    reveal_strlit("Tj");
    reveal_strlit("Tm");
    reveal_strlit("Tr");
    reveal_strlit("Ts");
    reveal_strlit("Tw");
    reveal_strlit("Tz");
    reveal_strlit("W");
    reveal_strlit("W*");
    reveal_strlit("\"");
    reveal_strlit("b");
    reveal_strlit("b*");
    reveal_strlit("c");
    reveal_strlit("clip");
    reveal_strlit("cm");
    reveal_strlit("color");
    reveal_strlit("compat");
    reveal_strlit("cs");
    reveal_strlit("d");
    reveal_strlit("d0");
    reveal_strlit("d1");
    reveal_strlit("f");
    reveal_strlit("f*");
    reveal_strlit("g");
    reveal_strlit("gs");
    reveal_strlit("gstate");
    reveal_strlit("h");
    reveal_strlit("i");
    reveal_strlit("inline");
    reveal_strlit("j");
    reveal_strlit("k");
    reveal_strlit("l");
    reveal_strlit("m");
    reveal_strlit("marked");
    reveal_strlit("n");
    reveal_strlit("other");
    reveal_strlit("paint");
    reveal_strlit("path");
    reveal_strlit("q");
    reveal_strlit("re");
    reveal_strlit("rg");
    reveal_strlit("ri");
    reveal_strlit("s");
    reveal_strlit("sc");
    reveal_strlit("scn");
    reveal_strlit("sh");
    reveal_strlit("shading");
    reveal_strlit("special");
    reveal_strlit("textobj");
    reveal_strlit("textpos");
    reveal_strlit("textshow");
    reveal_strlit("textstate");
    reveal_strlit("type3");
    reveal_strlit("v");
    reveal_strlit("w");
    reveal_strlit("xobject");
    reveal_strlit("y");
}

/// Every operator listed under a category is classified back into that
/// category.
#[verifier::rlimit(100)]
pub proof fn lemma_category_of_listed_op(cat: Seq<char>, k: int)
    requires
        0 <= k < spec_ops_for_category(cat).len(),
    ensures
        spec_category_for_op(spec_ops_for_category(cat)[k]) == cat,
{
    lemma_category_literals();
    if cat == "gstate"@ {
        assert(spec_ops_for_category(cat) =~= seq!["w"@, "J"@, "j"@, "M"@, "d"@, "ri"@, "i"@, "gs"@]);
        if k == 0 {
            assert(spec_ops_for_category(cat)[k] == "w"@);
        }
        if k == 1 {
            assert(spec_ops_for_category(cat)[k] == "J"@);
        }
        if k == 2 {
            assert(spec_ops_for_category(cat)[k] == "j"@);
        }
        if k == 3 {
            assert(spec_ops_for_category(cat)[k] == "M"@);
        }
        if k == 4 {
            assert(spec_ops_for_category(cat)[k] == "d"@);
        }
        if k == 5 {
            assert(spec_ops_for_category(cat)[k] == "ri"@);
        }
        if k == 6 {
            assert(spec_ops_for_category(cat)[k] == "i"@);
        }
        if k == 7 {
            assert(spec_ops_for_category(cat)[k] == "gs"@);
        }
    }
    if cat == "special"@ {
        assert(spec_ops_for_category(cat) =~= seq!["q"@, "Q"@, "cm"@]);
        if k == 0 {
            assert(spec_ops_for_category(cat)[k] == "q"@);
        }
        if k == 1 {
            assert(spec_ops_for_category(cat)[k] == "Q"@);
        }
        if k == 2 {
            assert(spec_ops_for_category(cat)[k] == "cm"@);
        }
    }
    if cat == "path"@ {
        assert(spec_ops_for_category(cat) =~= seq!["m"@, "l"@, "c"@, "v"@, "y"@, "h"@, "re"@]);
        if k == 0 {
            assert(spec_ops_for_category(cat)[k] == "m"@);
        }
        if k == 1 {
            assert(spec_ops_for_category(cat)[k] == "l"@);
        }
        if k == 2 {
            assert(spec_ops_for_category(cat)[k] == "c"@);
        }
        if k == 3 {
            assert(spec_ops_for_category(cat)[k] == "v"@);
        }
        if k == 4 {
            assert(spec_ops_for_category(cat)[k] == "y"@);
        }
        if k == 5 {
            assert(spec_ops_for_category(cat)[k] == "h"@);
        }
        if k == 6 {
            assert(spec_ops_for_category(cat)[k] == "re"@);
        }
    }
    if cat == "paint"@ {
        assert(spec_ops_for_category(cat) =~= seq!["S"@, "s"@, "f"@, "F"@, "f*"@, "B"@, "B*"@, "b"@, "b*"@, "n"@]);
        if k == 0 {
            assert(spec_ops_for_category(cat)[k] == "S"@);
        }
        if k == 1 {
            assert(spec_ops_for_category(cat)[k] == "s"@);
        }
        if k == 2 {
            assert(spec_ops_for_category(cat)[k] == "f"@);
        }
        if k == 3 {
            assert(spec_ops_for_category(cat)[k] == "F"@);
        }
        if k == 4 {
            assert(spec_ops_for_category(cat)[k] == "f*"@);
        }
        if k == 5 {
            assert(spec_ops_for_category(cat)[k] == "B"@);
        }
        if k == 6 {
            assert(spec_ops_for_category(cat)[k] == "B*"@);
        }
        if k == 7 {
            assert(spec_ops_for_category(cat)[k] == "b"@);
        }
        if k == 8 {
            assert(spec_ops_for_category(cat)[k] == "b*"@);
        }
        if k == 9 {
            assert(spec_ops_for_category(cat)[k] == "n"@);
        }
    }
    if cat == "clip"@ {
        assert(spec_ops_for_category(cat) =~= seq!["W"@, "W*"@]);
        if k == 0 {
            assert(spec_ops_for_category(cat)[k] == "W"@);
        }
        if k == 1 {
            assert(spec_ops_for_category(cat)[k] == "W*"@);
        }
    }
    if cat == "textobj"@ {
        assert(spec_ops_for_category(cat) =~= seq!["BT"@, "ET"@]);
        if k == 0 {
            assert(spec_ops_for_category(cat)[k] == "BT"@);
        }
        if k == 1 {
            assert(spec_ops_for_category(cat)[k] == "ET"@);
        }
    }
    if cat == "textstate"@ {
        assert(spec_ops_for_category(cat) =~= seq!["Tc"@, "Tw"@, "Tz"@, "TL"@, "Tf"@, "Tr"@, "Ts"@]);
        if k == 0 {
            assert(spec_ops_for_category(cat)[k] == "Tc"@);
        }
        if k == 1 {
            assert(spec_ops_for_category(cat)[k] == "Tw"@);
        }
        if k == 2 {
            assert(spec_ops_for_category(cat)[k] == "Tz"@);
        }
        if k == 3 {
            assert(spec_ops_for_category(cat)[k] == "TL"@);
        }
        if k == 4 {
            assert(spec_ops_for_category(cat)[k] == "Tf"@);
        }
        if k == 5 {
            assert(spec_ops_for_category(cat)[k] == "Tr"@);
        }
        if k == 6 {
            assert(spec_ops_for_category(cat)[k] == "Ts"@);
        }
    }
    if cat == "textpos"@ {
        assert(spec_ops_for_category(cat) =~= seq!["Td"@, "TD"@, "Tm"@, "T*"@]);
        if k == 0 {
            assert(spec_ops_for_category(cat)[k] == "Td"@);
        }
        if k == 1 {
            assert(spec_ops_for_category(cat)[k] == "TD"@);
        }
        if k == 2 {
            assert(spec_ops_for_category(cat)[k] == "Tm"@);
        }
        if k == 3 {
            assert(spec_ops_for_category(cat)[k] == "T*"@);
        }
    }
    if cat == "textshow"@ {
        assert(spec_ops_for_category(cat) =~= seq!["Tj"@, "TJ"@, "'"@, "\""@]);
        if k == 0 {
            assert(spec_ops_for_category(cat)[k] == "Tj"@);
        }
        if k == 1 {
            assert(spec_ops_for_category(cat)[k] == "TJ"@);
        }
        if k == 2 {
            assert(spec_ops_for_category(cat)[k] == "'"@);
        }
        if k == 3 {
            assert(spec_ops_for_category(cat)[k] == "\""@);
        }
    }
    if cat == "type3"@ {
        assert(spec_ops_for_category(cat) =~= seq!["d0"@, "d1"@]);
        if k == 0 {
            assert(spec_ops_for_category(cat)[k] == "d0"@);
        }
        if k == 1 {
            assert(spec_ops_for_category(cat)[k] == "d1"@);
        }
    }
    if cat == "color"@ {
        assert(spec_ops_for_category(cat) =~= seq!["CS"@, "cs"@, "SC"@, "SCN"@, "sc"@, "scn"@, "G"@, "g"@, "RG"@, "rg"@, "K"@, "k"@]);
        if k == 0 {
            assert(spec_ops_for_category(cat)[k] == "CS"@);
        }
        if k == 1 {
            assert(spec_ops_for_category(cat)[k] == "cs"@);
        }
        if k == 2 {
            assert(spec_ops_for_category(cat)[k] == "SC"@);
        }
        if k == 3 {
            assert(spec_ops_for_category(cat)[k] == "SCN"@);
        }
        if k == 4 {
            assert(spec_ops_for_category(cat)[k] == "sc"@);
        }
        if k == 5 {
            assert(spec_ops_for_category(cat)[k] == "scn"@);
        }
        if k == 6 {
            assert(spec_ops_for_category(cat)[k] == "G"@);
        }
        if k == 7 {
            assert(spec_ops_for_category(cat)[k] == "g"@);
        }
        if k == 8 {
            assert(spec_ops_for_category(cat)[k] == "RG"@);
        }
        if k == 9 {
            assert(spec_ops_for_category(cat)[k] == "rg"@);
        }
        if k == 10 {
            assert(spec_ops_for_category(cat)[k] == "K"@);
        }
        if k == 11 {
            assert(spec_ops_for_category(cat)[k] == "k"@);
        }
    }
    if cat == "shading"@ {
        assert(spec_ops_for_category(cat) =~= seq!["sh"@]);
        if k == 0 {
            assert(spec_ops_for_category(cat)[k] == "sh"@);
        }
    }
    if cat == "inline"@ {
        assert(spec_ops_for_category(cat) =~= seq!["BI"@, "ID"@, "EI"@]);
        if k == 0 {
            assert(spec_ops_for_category(cat)[k] == "BI"@);
        }
        if k == 1 {
            assert(spec_ops_for_category(cat)[k] == "ID"@);
        }
        if k == 2 {
            assert(spec_ops_for_category(cat)[k] == "EI"@);
        }
    }
    if cat == "xobject"@ {
        assert(spec_ops_for_category(cat) =~= seq!["Do"@]);
        if k == 0 {
            assert(spec_ops_for_category(cat)[k] == "Do"@);
        }
    }
    if cat == "marked"@ {
        assert(spec_ops_for_category(cat) =~= seq!["MP"@, "DP"@, "BMC"@, "BDC"@, "EMC"@]);
        if k == 0 {
            assert(spec_ops_for_category(cat)[k] == "MP"@);
        }
        if k == 1 {
            assert(spec_ops_for_category(cat)[k] == "DP"@);
        }
        if k == 2 {
            assert(spec_ops_for_category(cat)[k] == "BMC"@);
        }
        if k == 3 {
            assert(spec_ops_for_category(cat)[k] == "BDC"@);
        }
        if k == 4 {
            assert(spec_ops_for_category(cat)[k] == "EMC"@);
        }
    }
    if cat == "compat"@ {
        assert(spec_ops_for_category(cat) =~= seq!["BX"@, "EX"@]);
        if k == 0 {
            assert(spec_ops_for_category(cat)[k] == "BX"@);
        }
        if k == 1 {
            assert(spec_ops_for_category(cat)[k] == "EX"@);
        }
    }
}

/// An operator classified into a category (other than `"other"`) is listed
/// under that category.
#[verifier::rlimit(100)]
pub proof fn lemma_classified_op_is_listed(op: Seq<char>)
    requires
        spec_category_for_op(op) != "other"@,
    ensures
        spec_ops_for_category(spec_category_for_op(op)).contains(op),
{
    lemma_category_literals();
    if op == "w"@ || op == "J"@ || op == "j"@ || op == "M"@ || op == "d"@ || op == "ri"@ || op == "i"@ || op == "gs"@ {
        assert(spec_category_for_op(op) == "gstate"@);
        assert(spec_ops_for_category("gstate"@) =~= seq!["w"@, "J"@, "j"@, "M"@, "d"@, "ri"@, "i"@, "gs"@]);
        if op == "w"@ {
            assert(spec_ops_for_category("gstate"@)[0] == op);
        }
        if op == "J"@ {
            assert(spec_ops_for_category("gstate"@)[1] == op);
        }
        if op == "j"@ {
            assert(spec_ops_for_category("gstate"@)[2] == op);
        }
        if op == "M"@ {
            assert(spec_ops_for_category("gstate"@)[3] == op);
        }
        if op == "d"@ {
            assert(spec_ops_for_category("gstate"@)[4] == op);
        }
        if op == "ri"@ {
            assert(spec_ops_for_category("gstate"@)[5] == op);
        }
        if op == "i"@ {
            assert(spec_ops_for_category("gstate"@)[6] == op);
        }
        if op == "gs"@ {
            assert(spec_ops_for_category("gstate"@)[7] == op);
        }
    }
    if op == "q"@ || op == "Q"@ || op == "cm"@ {
        assert(spec_category_for_op(op) == "special"@);
        assert(spec_ops_for_category("special"@) =~= seq!["q"@, "Q"@, "cm"@]);
        if op == "q"@ {
            assert(spec_ops_for_category("special"@)[0] == op);
        }
        if op == "Q"@ {
            assert(spec_ops_for_category("special"@)[1] == op);
        }
        if op == "cm"@ {
            assert(spec_ops_for_category("special"@)[2] == op);
        }
    }
    if op == "m"@ || op == "l"@ || op == "c"@ || op == "v"@ || op == "y"@ || op == "h"@ || op == "re"@ {
        assert(spec_category_for_op(op) == "path"@);
        assert(spec_ops_for_category("path"@) =~= seq!["m"@, "l"@, "c"@, "v"@, "y"@, "h"@, "re"@]);
        if op == "m"@ {
            assert(spec_ops_for_category("path"@)[0] == op);
        }
        if op == "l"@ {
            assert(spec_ops_for_category("path"@)[1] == op);
        }
        if op == "c"@ {
            assert(spec_ops_for_category("path"@)[2] == op);
        }
        if op == "v"@ {
            assert(spec_ops_for_category("path"@)[3] == op);
        }
        if op == "y"@ {
            assert(spec_ops_for_category("path"@)[4] == op);
        }
        if op == "h"@ {
            assert(spec_ops_for_category("path"@)[5] == op);
        }
        if op == "re"@ {
            assert(spec_ops_for_category("path"@)[6] == op);
        }
    }
    if op == "S"@ || op == "s"@ || op == "f"@ || op == "F"@ || op == "f*"@ || op == "B"@ || op == "B*"@ || op == "b"@ || op == "b*"@ || op == "n"@ {
        assert(spec_category_for_op(op) == "paint"@);
        assert(spec_ops_for_category("paint"@) =~= seq!["S"@, "s"@, "f"@, "F"@, "f*"@, "B"@, "B*"@, "b"@, "b*"@, "n"@]);
        if op == "S"@ {
            assert(spec_ops_for_category("paint"@)[0] == op);
        }
        if op == "s"@ {
            assert(spec_ops_for_category("paint"@)[1] == op);
        }
        if op == "f"@ {
            assert(spec_ops_for_category("paint"@)[2] == op);
        }
        if op == "F"@ {
            assert(spec_ops_for_category("paint"@)[3] == op);
        }
        if op == "f*"@ {
            assert(spec_ops_for_category("paint"@)[4] == op);
        }
        if op == "B"@ {
            assert(spec_ops_for_category("paint"@)[5] == op);
        }
        if op == "B*"@ {
            assert(spec_ops_for_category("paint"@)[6] == op);
        }
        if op == "b"@ {
            assert(spec_ops_for_category("paint"@)[7] == op);
        }
        if op == "b*"@ {
            assert(spec_ops_for_category("paint"@)[8] == op);
        }
        if op == "n"@ {
            assert(spec_ops_for_category("paint"@)[9] == op);
        }
    }
    if op == "W"@ || op == "W*"@ {
        assert(spec_category_for_op(op) == "clip"@);
        assert(spec_ops_for_category("clip"@) =~= seq!["W"@, "W*"@]);
        if op == "W"@ {
            assert(spec_ops_for_category("clip"@)[0] == op);
        }
        if op == "W*"@ {
            assert(spec_ops_for_category("clip"@)[1] == op);
        }
    }
    if op == "BT"@ || op == "ET"@ {
        assert(spec_category_for_op(op) == "textobj"@);
        assert(spec_ops_for_category("textobj"@) =~= seq!["BT"@, "ET"@]);
        if op == "BT"@ {
            assert(spec_ops_for_category("textobj"@)[0] == op);
        }
        if op == "ET"@ {
            assert(spec_ops_for_category("textobj"@)[1] == op);
        }
    }
    if op == "Tc"@ || op == "Tw"@ || op == "Tz"@ || op == "TL"@ || op == "Tf"@ || op == "Tr"@ || op == "Ts"@ {
        assert(spec_category_for_op(op) == "textstate"@);
        assert(spec_ops_for_category("textstate"@) =~= seq!["Tc"@, "Tw"@, "Tz"@, "TL"@, "Tf"@, "Tr"@, "Ts"@]);
        if op == "Tc"@ {
            assert(spec_ops_for_category("textstate"@)[0] == op);
        }
        if op == "Tw"@ {
            assert(spec_ops_for_category("textstate"@)[1] == op);
        }
        if op == "Tz"@ {
            assert(spec_ops_for_category("textstate"@)[2] == op);
        }
        if op == "TL"@ {
            assert(spec_ops_for_category("textstate"@)[3] == op);
        }
        if op == "Tf"@ {
            assert(spec_ops_for_category("textstate"@)[4] == op);
        }
        if op == "Tr"@ {
            assert(spec_ops_for_category("textstate"@)[5] == op);
        }
        if op == "Ts"@ {
            assert(spec_ops_for_category("textstate"@)[6] == op);
        }
    }
    if op == "Td"@ || op == "TD"@ || op == "Tm"@ || op == "T*"@ {
        assert(spec_category_for_op(op) == "textpos"@);
        assert(spec_ops_for_category("textpos"@) =~= seq!["Td"@, "TD"@, "Tm"@, "T*"@]);
        if op == "Td"@ {
            assert(spec_ops_for_category("textpos"@)[0] == op);
        }
        if op == "TD"@ {
            assert(spec_ops_for_category("textpos"@)[1] == op);
        }
        if op == "Tm"@ {
            assert(spec_ops_for_category("textpos"@)[2] == op);
        }
        if op == "T*"@ {
            assert(spec_ops_for_category("textpos"@)[3] == op);
        }
    }
    if op == "Tj"@ || op == "TJ"@ || op == "'"@ || op == "\""@ {
        assert(spec_category_for_op(op) == "textshow"@);
        assert(spec_ops_for_category("textshow"@) =~= seq!["Tj"@, "TJ"@, "'"@, "\""@]);
        if op == "Tj"@ {
            assert(spec_ops_for_category("textshow"@)[0] == op);
        }
        if op == "TJ"@ {
            assert(spec_ops_for_category("textshow"@)[1] == op);
        }
        if op == "'"@ {
            assert(spec_ops_for_category("textshow"@)[2] == op);
        }
        if op == "\""@ {
            assert(spec_ops_for_category("textshow"@)[3] == op);
        }
    }
    if op == "d0"@ || op == "d1"@ {
        assert(spec_category_for_op(op) == "type3"@);
        assert(spec_ops_for_category("type3"@) =~= seq!["d0"@, "d1"@]);
        if op == "d0"@ {
            assert(spec_ops_for_category("type3"@)[0] == op);
        }
        if op == "d1"@ {
            assert(spec_ops_for_category("type3"@)[1] == op);
        }
    }
    if op == "CS"@ || op == "cs"@ || op == "SC"@ || op == "SCN"@ || op == "sc"@ || op == "scn"@ || op == "G"@ || op == "g"@ || op == "RG"@ || op == "rg"@ || op == "K"@ || op == "k"@ {
        assert(spec_category_for_op(op) == "color"@);
        assert(spec_ops_for_category("color"@) =~= seq!["CS"@, "cs"@, "SC"@, "SCN"@, "sc"@, "scn"@, "G"@, "g"@, "RG"@, "rg"@, "K"@, "k"@]);
        if op == "CS"@ {
            assert(spec_ops_for_category("color"@)[0] == op);
        }
        if op == "cs"@ {
            assert(spec_ops_for_category("color"@)[1] == op);
        }
        if op == "SC"@ {
            assert(spec_ops_for_category("color"@)[2] == op);
        }
        if op == "SCN"@ {
            assert(spec_ops_for_category("color"@)[3] == op);
        }
        if op == "sc"@ {
            assert(spec_ops_for_category("color"@)[4] == op);
        }
        if op == "scn"@ {
            assert(spec_ops_for_category("color"@)[5] == op);
        }
        if op == "G"@ {
            assert(spec_ops_for_category("color"@)[6] == op);
        }
        if op == "g"@ {
            assert(spec_ops_for_category("color"@)[7] == op);
        }
        if op == "RG"@ {
            assert(spec_ops_for_category("color"@)[8] == op);
        }
        if op == "rg"@ {
            assert(spec_ops_for_category("color"@)[9] == op);
        }
        if op == "K"@ {
            assert(spec_ops_for_category("color"@)[10] == op);
        }
        if op == "k"@ {
            assert(spec_ops_for_category("color"@)[11] == op);
        }
    }
    if op == "sh"@ {
        assert(spec_category_for_op(op) == "shading"@);
        assert(spec_ops_for_category("shading"@) =~= seq!["sh"@]);
        if op == "sh"@ {
            assert(spec_ops_for_category("shading"@)[0] == op);
        }
    }
    if op == "BI"@ || op == "ID"@ || op == "EI"@ {
        assert(spec_category_for_op(op) == "inline"@);
        assert(spec_ops_for_category("inline"@) =~= seq!["BI"@, "ID"@, "EI"@]);
        if op == "BI"@ {
            assert(spec_ops_for_category("inline"@)[0] == op);
        }
        if op == "ID"@ {
            assert(spec_ops_for_category("inline"@)[1] == op);
        }
        if op == "EI"@ {
            assert(spec_ops_for_category("inline"@)[2] == op);
        }
    }
    if op == "Do"@ {
        assert(spec_category_for_op(op) == "xobject"@);
        assert(spec_ops_for_category("xobject"@) =~= seq!["Do"@]);
        if op == "Do"@ {
            assert(spec_ops_for_category("xobject"@)[0] == op);
        }
    }
    if op == "MP"@ || op == "DP"@ || op == "BMC"@ || op == "BDC"@ || op == "EMC"@ {
        assert(spec_category_for_op(op) == "marked"@);
        assert(spec_ops_for_category("marked"@) =~= seq!["MP"@, "DP"@, "BMC"@, "BDC"@, "EMC"@]);
        if op == "MP"@ {
            assert(spec_ops_for_category("marked"@)[0] == op);
        }
        if op == "DP"@ {
            assert(spec_ops_for_category("marked"@)[1] == op);
        }
        if op == "BMC"@ {
            assert(spec_ops_for_category("marked"@)[2] == op);
        }
        if op == "BDC"@ {
            assert(spec_ops_for_category("marked"@)[3] == op);
        }
        if op == "EMC"@ {
            assert(spec_ops_for_category("marked"@)[4] == op);
        }
    }
    if op == "BX"@ || op == "EX"@ {
        assert(spec_category_for_op(op) == "compat"@);
        assert(spec_ops_for_category("compat"@) =~= seq!["BX"@, "EX"@]);
        if op == "BX"@ {
            assert(spec_ops_for_category("compat"@)[0] == op);
        }
        if op == "EX"@ {
            assert(spec_ops_for_category("compat"@)[1] == op);
        }
    }
}

/// The sixteen category names, in the order of the PDF reference.
pub open spec fn category_names() -> Seq<Seq<char>> {
    seq!["gstate"@, "special"@, "path"@, "paint"@, "clip"@, "textobj"@, "textstate"@, "textpos"@, "textshow"@, "type3"@, "color"@, "shading"@, "inline"@, "xobject"@, "marked"@, "compat"@]
}

/// How many operators the lists of the categories `names` hold together.
pub open spec fn listed_total(names: Seq<Seq<char>>) -> nat
    decreases names.len(),
{
    if names.len() == 0 {
        0
    } else {
        listed_total(names.drop_last()) + spec_ops_for_category(names.last()).len()
    }
}

/// The list of each of the sixteen categories, spelled out.
proof fn lemma_lists_spelled_out()
    ensures
        spec_ops_for_category("gstate"@) == seq!["w"@, "J"@, "j"@, "M"@, "d"@, "ri"@, "i"@, "gs"@],
        spec_ops_for_category("special"@) == seq!["q"@, "Q"@, "cm"@],
        spec_ops_for_category("path"@) == seq!["m"@, "l"@, "c"@, "v"@, "y"@, "h"@, "re"@],
        spec_ops_for_category("paint"@) == seq!["S"@, "s"@, "f"@, "F"@, "f*"@, "B"@, "B*"@, "b"@, "b*"@, "n"@],
        spec_ops_for_category("clip"@) == seq!["W"@, "W*"@],
        spec_ops_for_category("textobj"@) == seq!["BT"@, "ET"@],
        spec_ops_for_category("textstate"@) == seq!["Tc"@, "Tw"@, "Tz"@, "TL"@, "Tf"@, "Tr"@, "Ts"@],
        spec_ops_for_category("textpos"@) == seq!["Td"@, "TD"@, "Tm"@, "T*"@],
        spec_ops_for_category("textshow"@) == seq!["Tj"@, "TJ"@, "'"@, "\""@],
        spec_ops_for_category("type3"@) == seq!["d0"@, "d1"@],
        spec_ops_for_category("color"@) == seq!["CS"@, "cs"@, "SC"@, "SCN"@, "sc"@, "scn"@, "G"@, "g"@, "RG"@, "rg"@, "K"@, "k"@],
        spec_ops_for_category("shading"@) == seq!["sh"@],
        spec_ops_for_category("inline"@) == seq!["BI"@, "ID"@, "EI"@],
        spec_ops_for_category("xobject"@) == seq!["Do"@],
        spec_ops_for_category("marked"@) == seq!["MP"@, "DP"@, "BMC"@, "BDC"@, "EMC"@],
        spec_ops_for_category("compat"@) == seq!["BX"@, "EX"@],
{
    lemma_category_literals();
    assert(spec_ops_for_category("gstate"@) =~= seq!["w"@, "J"@, "j"@, "M"@, "d"@, "ri"@, "i"@, "gs"@]);
    assert(spec_ops_for_category("special"@) =~= seq!["q"@, "Q"@, "cm"@]);
    assert(spec_ops_for_category("path"@) =~= seq!["m"@, "l"@, "c"@, "v"@, "y"@, "h"@, "re"@]);
    assert(spec_ops_for_category("paint"@) =~= seq!["S"@, "s"@, "f"@, "F"@, "f*"@, "B"@, "B*"@, "b"@, "b*"@, "n"@]);
    assert(spec_ops_for_category("clip"@) =~= seq!["W"@, "W*"@]);
    assert(spec_ops_for_category("textobj"@) =~= seq!["BT"@, "ET"@]);
    assert(spec_ops_for_category("textstate"@) =~= seq!["Tc"@, "Tw"@, "Tz"@, "TL"@, "Tf"@, "Tr"@, "Ts"@]);
    assert(spec_ops_for_category("textpos"@) =~= seq!["Td"@, "TD"@, "Tm"@, "T*"@]);
    assert(spec_ops_for_category("textshow"@) =~= seq!["Tj"@, "TJ"@, "'"@, "\""@]);
    assert(spec_ops_for_category("type3"@) =~= seq!["d0"@, "d1"@]);
    assert(spec_ops_for_category("color"@) =~= seq!["CS"@, "cs"@, "SC"@, "SCN"@, "sc"@, "scn"@, "G"@, "g"@, "RG"@, "rg"@, "K"@, "k"@]);
    assert(spec_ops_for_category("shading"@) =~= seq!["sh"@]);
    assert(spec_ops_for_category("inline"@) =~= seq!["BI"@, "ID"@, "EI"@]);
    assert(spec_ops_for_category("xobject"@) =~= seq!["Do"@]);
    assert(spec_ops_for_category("marked"@) =~= seq!["MP"@, "DP"@, "BMC"@, "BDC"@, "EMC"@]);
    assert(spec_ops_for_category("compat"@) =~= seq!["BX"@, "EX"@]);
}

/// No operator is listed twice under one category.
#[verifier::rlimit(100)]
proof fn lemma_lists_duplicate_free(cat: Seq<char>)
    ensures
        spec_ops_for_category(cat).no_duplicates(),
{
    lemma_category_literals();
    lemma_lists_spelled_out();
    if cat == "gstate"@ {
        let s = spec_ops_for_category(cat);
        assert forall|i: int, j: int| 0 <= i < s.len() && 0 <= j < s.len() && i != j implies s[i] != s[j] by {
            if i == 0 { assert(s[i] == "w"@); }
            if j == 0 { assert(s[j] == "w"@); }
            if i == 1 { assert(s[i] == "J"@); }
            if j == 1 { assert(s[j] == "J"@); }
            if i == 2 { assert(s[i] == "j"@); }
            if j == 2 { assert(s[j] == "j"@); }
            if i == 3 { assert(s[i] == "M"@); }
            if j == 3 { assert(s[j] == "M"@); }
            if i == 4 { assert(s[i] == "d"@); }
            if j == 4 { assert(s[j] == "d"@); }
            if i == 5 { assert(s[i] == "ri"@); }
            if j == 5 { assert(s[j] == "ri"@); }
            if i == 6 { assert(s[i] == "i"@); }
            if j == 6 { assert(s[j] == "i"@); }
            if i == 7 { assert(s[i] == "gs"@); }
            if j == 7 { assert(s[j] == "gs"@); }
        }
    }
    if cat == "special"@ {
        let s = spec_ops_for_category(cat);
        assert forall|i: int, j: int| 0 <= i < s.len() && 0 <= j < s.len() && i != j implies s[i] != s[j] by {
            if i == 0 { assert(s[i] == "q"@); }
            if j == 0 { assert(s[j] == "q"@); }
            if i == 1 { assert(s[i] == "Q"@); }
            if j == 1 { assert(s[j] == "Q"@); }
            if i == 2 { assert(s[i] == "cm"@); }
            if j == 2 { assert(s[j] == "cm"@); }
        }
    }
    if cat == "path"@ {
        let s = spec_ops_for_category(cat);
        assert forall|i: int, j: int| 0 <= i < s.len() && 0 <= j < s.len() && i != j implies s[i] != s[j] by {
            if i == 0 { assert(s[i] == "m"@); }
            if j == 0 { assert(s[j] == "m"@); }
            if i == 1 { assert(s[i] == "l"@); }
            if j == 1 { assert(s[j] == "l"@); }
            if i == 2 { assert(s[i] == "c"@); }
            if j == 2 { assert(s[j] == "c"@); }
            if i == 3 { assert(s[i] == "v"@); }
            if j == 3 { assert(s[j] == "v"@); }
            if i == 4 { assert(s[i] == "y"@); }
            if j == 4 { assert(s[j] == "y"@); }
            if i == 5 { assert(s[i] == "h"@); }
            if j == 5 { assert(s[j] == "h"@); }
            if i == 6 { assert(s[i] == "re"@); }
            if j == 6 { assert(s[j] == "re"@); }
        }
    }
    if cat == "paint"@ {
        let s = spec_ops_for_category(cat);
        assert forall|i: int, j: int| 0 <= i < s.len() && 0 <= j < s.len() && i != j implies s[i] != s[j] by {
            if i == 0 { assert(s[i] == "S"@); }
            if j == 0 { assert(s[j] == "S"@); }
            if i == 1 { assert(s[i] == "s"@); }
            if j == 1 { assert(s[j] == "s"@); }
            if i == 2 { assert(s[i] == "f"@); }
            if j == 2 { assert(s[j] == "f"@); }
            if i == 3 { assert(s[i] == "F"@); }
            if j == 3 { assert(s[j] == "F"@); }
            if i == 4 { assert(s[i] == "f*"@); }
            if j == 4 { assert(s[j] == "f*"@); }
            if i == 5 { assert(s[i] == "B"@); }
            if j == 5 { assert(s[j] == "B"@); }
            if i == 6 { assert(s[i] == "B*"@); }
            if j == 6 { assert(s[j] == "B*"@); }
            if i == 7 { assert(s[i] == "b"@); }
            if j == 7 { assert(s[j] == "b"@); }
            if i == 8 { assert(s[i] == "b*"@); }
            if j == 8 { assert(s[j] == "b*"@); }
            if i == 9 { assert(s[i] == "n"@); }
            if j == 9 { assert(s[j] == "n"@); }
        }
    }
    if cat == "clip"@ {
        let s = spec_ops_for_category(cat);
        assert forall|i: int, j: int| 0 <= i < s.len() && 0 <= j < s.len() && i != j implies s[i] != s[j] by {
            if i == 0 { assert(s[i] == "W"@); }
            if j == 0 { assert(s[j] == "W"@); }
            if i == 1 { assert(s[i] == "W*"@); }
            if j == 1 { assert(s[j] == "W*"@); }
        }
    }
    if cat == "textobj"@ {
        let s = spec_ops_for_category(cat);
        assert forall|i: int, j: int| 0 <= i < s.len() && 0 <= j < s.len() && i != j implies s[i] != s[j] by {
            if i == 0 { assert(s[i] == "BT"@); }
            if j == 0 { assert(s[j] == "BT"@); }
            if i == 1 { assert(s[i] == "ET"@); }
            if j == 1 { assert(s[j] == "ET"@); }
        }
    }
    if cat == "textstate"@ {
        let s = spec_ops_for_category(cat);
        assert forall|i: int, j: int| 0 <= i < s.len() && 0 <= j < s.len() && i != j implies s[i] != s[j] by {
            if i == 0 { assert(s[i] == "Tc"@); }
            if j == 0 { assert(s[j] == "Tc"@); }
            if i == 1 { assert(s[i] == "Tw"@); }
            if j == 1 { assert(s[j] == "Tw"@); }
            if i == 2 { assert(s[i] == "Tz"@); }
            if j == 2 { assert(s[j] == "Tz"@); }
            if i == 3 { assert(s[i] == "TL"@); }
            if j == 3 { assert(s[j] == "TL"@); }
            if i == 4 { assert(s[i] == "Tf"@); }
            if j == 4 { assert(s[j] == "Tf"@); }
            if i == 5 { assert(s[i] == "Tr"@); }
            if j == 5 { assert(s[j] == "Tr"@); }
            if i == 6 { assert(s[i] == "Ts"@); }
            if j == 6 { assert(s[j] == "Ts"@); }
        }
    }
    if cat == "textpos"@ {
        let s = spec_ops_for_category(cat);
        assert forall|i: int, j: int| 0 <= i < s.len() && 0 <= j < s.len() && i != j implies s[i] != s[j] by {
            if i == 0 { assert(s[i] == "Td"@); }
            if j == 0 { assert(s[j] == "Td"@); }
            if i == 1 { assert(s[i] == "TD"@); }
            if j == 1 { assert(s[j] == "TD"@); }
            if i == 2 { assert(s[i] == "Tm"@); }
            if j == 2 { assert(s[j] == "Tm"@); }
            if i == 3 { assert(s[i] == "T*"@); }
            if j == 3 { assert(s[j] == "T*"@); }
        }
    }
    if cat == "textshow"@ {
        let s = spec_ops_for_category(cat);
        assert forall|i: int, j: int| 0 <= i < s.len() && 0 <= j < s.len() && i != j implies s[i] != s[j] by {
            if i == 0 { assert(s[i] == "Tj"@); }
            if j == 0 { assert(s[j] == "Tj"@); }
            if i == 1 { assert(s[i] == "TJ"@); }
            if j == 1 { assert(s[j] == "TJ"@); }
            if i == 2 { assert(s[i] == "'"@); }
            if j == 2 { assert(s[j] == "'"@); }
            if i == 3 { assert(s[i] == "\""@); }
            if j == 3 { assert(s[j] == "\""@); }
        }
    }
    if cat == "type3"@ {
        let s = spec_ops_for_category(cat);
        assert forall|i: int, j: int| 0 <= i < s.len() && 0 <= j < s.len() && i != j implies s[i] != s[j] by {
            if i == 0 { assert(s[i] == "d0"@); }
            if j == 0 { assert(s[j] == "d0"@); }
            if i == 1 { assert(s[i] == "d1"@); }
            if j == 1 { assert(s[j] == "d1"@); }
        }
    }
    if cat == "color"@ {
        let s = spec_ops_for_category(cat);
        assert forall|i: int, j: int| 0 <= i < s.len() && 0 <= j < s.len() && i != j implies s[i] != s[j] by {
            if i == 0 { assert(s[i] == "CS"@); }
            if j == 0 { assert(s[j] == "CS"@); }
            if i == 1 { assert(s[i] == "cs"@); }
            if j == 1 { assert(s[j] == "cs"@); }
            if i == 2 { assert(s[i] == "SC"@); }
            if j == 2 { assert(s[j] == "SC"@); }
            if i == 3 { assert(s[i] == "SCN"@); }
            if j == 3 { assert(s[j] == "SCN"@); }
            if i == 4 { assert(s[i] == "sc"@); }
            if j == 4 { assert(s[j] == "sc"@); }
            if i == 5 { assert(s[i] == "scn"@); }
            if j == 5 { assert(s[j] == "scn"@); }
            if i == 6 { assert(s[i] == "G"@); }
            if j == 6 { assert(s[j] == "G"@); }
            if i == 7 { assert(s[i] == "g"@); }
            if j == 7 { assert(s[j] == "g"@); }
            if i == 8 { assert(s[i] == "RG"@); }
            if j == 8 { assert(s[j] == "RG"@); }
            if i == 9 { assert(s[i] == "rg"@); }
            if j == 9 { assert(s[j] == "rg"@); }
            if i == 10 { assert(s[i] == "K"@); }
            if j == 10 { assert(s[j] == "K"@); }
            if i == 11 { assert(s[i] == "k"@); }
            if j == 11 { assert(s[j] == "k"@); }
        }
    }
    if cat == "shading"@ {
        let s = spec_ops_for_category(cat);
        assert forall|i: int, j: int| 0 <= i < s.len() && 0 <= j < s.len() && i != j implies s[i] != s[j] by {
            if i == 0 { assert(s[i] == "sh"@); }
            if j == 0 { assert(s[j] == "sh"@); }
        }
    }
    if cat == "inline"@ {
        let s = spec_ops_for_category(cat);
        assert forall|i: int, j: int| 0 <= i < s.len() && 0 <= j < s.len() && i != j implies s[i] != s[j] by {
            if i == 0 { assert(s[i] == "BI"@); }
            if j == 0 { assert(s[j] == "BI"@); }
            if i == 1 { assert(s[i] == "ID"@); }
            if j == 1 { assert(s[j] == "ID"@); }
            if i == 2 { assert(s[i] == "EI"@); }
            if j == 2 { assert(s[j] == "EI"@); }
        }
    }
    if cat == "xobject"@ {
        let s = spec_ops_for_category(cat);
        assert forall|i: int, j: int| 0 <= i < s.len() && 0 <= j < s.len() && i != j implies s[i] != s[j] by {
            if i == 0 { assert(s[i] == "Do"@); }
            if j == 0 { assert(s[j] == "Do"@); }
        }
    }
    if cat == "marked"@ {
        let s = spec_ops_for_category(cat);
        assert forall|i: int, j: int| 0 <= i < s.len() && 0 <= j < s.len() && i != j implies s[i] != s[j] by {
            if i == 0 { assert(s[i] == "MP"@); }
            if j == 0 { assert(s[j] == "MP"@); }
            if i == 1 { assert(s[i] == "DP"@); }
            if j == 1 { assert(s[j] == "DP"@); }
            if i == 2 { assert(s[i] == "BMC"@); }
            if j == 2 { assert(s[j] == "BMC"@); }
            if i == 3 { assert(s[i] == "BDC"@); }
            if j == 3 { assert(s[j] == "BDC"@); }
            if i == 4 { assert(s[i] == "EMC"@); }
            if j == 4 { assert(s[j] == "EMC"@); }
        }
    }
    if cat == "compat"@ {
        let s = spec_ops_for_category(cat);
        assert forall|i: int, j: int| 0 <= i < s.len() && 0 <= j < s.len() && i != j implies s[i] != s[j] by {
            if i == 0 { assert(s[i] == "BX"@); }
            if j == 0 { assert(s[j] == "BX"@); }
            if i == 1 { assert(s[i] == "EX"@); }
            if j == 1 { assert(s[j] == "EX"@); }
        }
    }
}

/// The category lists split the operators: each list is free of duplicates,
/// no operator is listed under two categories, a list is non-empty exactly for
/// the sixteen category names, and together the lists hold 73 operators.
/// Every operator is classified into one of the sixteen categories or
/// `"other"`.
#[verifier::rlimit(100)]
pub proof fn lemma_category_lists_partition()
    ensures
        forall|cat: Seq<char>| #[trigger] spec_ops_for_category(cat).no_duplicates(),
        forall|cat1: Seq<char>, cat2: Seq<char>, op: Seq<char>|
            cat1 != cat2 && #[trigger] spec_ops_for_category(cat1).contains(op)
                ==> !(#[trigger] spec_ops_for_category(cat2)).contains(op),
        forall|cat: Seq<char>|
            #[trigger] spec_ops_for_category(cat).len() > 0 <==> category_names().contains(cat),
        listed_total(category_names()) == 73,
        forall|op: Seq<char>|
            category_names().contains(#[trigger] spec_category_for_op(op))
                || spec_category_for_op(op) == "other"@,
{
    lemma_category_literals();
    lemma_lists_spelled_out();
    assert forall|cat: Seq<char>| #[trigger] spec_ops_for_category(cat).no_duplicates() by {
        lemma_lists_duplicate_free(cat);
    }
    assert forall|cat1: Seq<char>, cat2: Seq<char>, op: Seq<char>|
        cat1 != cat2 && #[trigger] spec_ops_for_category(cat1).contains(op)
            implies !(#[trigger] spec_ops_for_category(cat2)).contains(op) by {
        let k1 = choose|k: int| 0 <= k < spec_ops_for_category(cat1).len()
            && spec_ops_for_category(cat1)[k] == op;
        lemma_category_of_listed_op(cat1, k1);
        if spec_ops_for_category(cat2).contains(op) {
            let k2 = choose|k: int| 0 <= k < spec_ops_for_category(cat2).len()
                && spec_ops_for_category(cat2)[k] == op;
            lemma_category_of_listed_op(cat2, k2);
        }
    }
    let names = category_names();
    assert(names[0] == "gstate"@);
    assert(names[1] == "special"@);
    assert(names[2] == "path"@);
    assert(names[3] == "paint"@);
    assert(names[4] == "clip"@);
    assert(names[5] == "textobj"@);
    assert(names[6] == "textstate"@);
    assert(names[7] == "textpos"@);
    assert(names[8] == "textshow"@);
    assert(names[9] == "type3"@);
    assert(names[10] == "color"@);
    assert(names[11] == "shading"@);
    assert(names[12] == "inline"@);
    assert(names[13] == "xobject"@);
    assert(names[14] == "marked"@);
    assert(names[15] == "compat"@);
    assert forall|cat: Seq<char>|
        #[trigger] spec_ops_for_category(cat).len() > 0 <==> names.contains(cat) by {
        if names.contains(cat) {
            let k = choose|k: int| 0 <= k < names.len() && names[k] == cat;
            if k == 0 { assert(spec_ops_for_category(cat).len() == 8); }
            if k == 1 { assert(spec_ops_for_category(cat).len() == 3); }
            if k == 2 { assert(spec_ops_for_category(cat).len() == 7); }
            if k == 3 { assert(spec_ops_for_category(cat).len() == 10); }
            if k == 4 { assert(spec_ops_for_category(cat).len() == 2); }
            if k == 5 { assert(spec_ops_for_category(cat).len() == 2); }
            if k == 6 { assert(spec_ops_for_category(cat).len() == 7); }
            if k == 7 { assert(spec_ops_for_category(cat).len() == 4); }
            if k == 8 { assert(spec_ops_for_category(cat).len() == 4); }
            if k == 9 { assert(spec_ops_for_category(cat).len() == 2); }
            if k == 10 { assert(spec_ops_for_category(cat).len() == 12); }
            if k == 11 { assert(spec_ops_for_category(cat).len() == 1); }
            if k == 12 { assert(spec_ops_for_category(cat).len() == 3); }
            if k == 13 { assert(spec_ops_for_category(cat).len() == 1); }
            if k == 14 { assert(spec_ops_for_category(cat).len() == 5); }
            if k == 15 { assert(spec_ops_for_category(cat).len() == 2); }
        }
        if cat == "gstate"@ { assert(names[0] == cat); }
        if cat == "special"@ { assert(names[1] == cat); }
        if cat == "path"@ { assert(names[2] == cat); }
        if cat == "paint"@ { assert(names[3] == cat); }
        if cat == "clip"@ { assert(names[4] == cat); }
        if cat == "textobj"@ { assert(names[5] == cat); }
        if cat == "textstate"@ { assert(names[6] == cat); }
        if cat == "textpos"@ { assert(names[7] == cat); }
        if cat == "textshow"@ { assert(names[8] == cat); }
        if cat == "type3"@ { assert(names[9] == cat); }
        if cat == "color"@ { assert(names[10] == cat); }
        if cat == "shading"@ { assert(names[11] == cat); }
        if cat == "inline"@ { assert(names[12] == cat); }
        if cat == "xobject"@ { assert(names[13] == cat); }
        if cat == "marked"@ { assert(names[14] == cat); }
        if cat == "compat"@ { assert(names[15] == cat); }
    }
    reveal_with_fuel(listed_total, 17);
    assert(listed_total(names) == 73);
    assert forall|op: Seq<char>|
        names.contains(#[trigger] spec_category_for_op(op))
            || spec_category_for_op(op) == "other"@ by {
        if spec_category_for_op(op) == "gstate"@ { assert(names[0] == spec_category_for_op(op)); }
        if spec_category_for_op(op) == "special"@ { assert(names[1] == spec_category_for_op(op)); }
        if spec_category_for_op(op) == "path"@ { assert(names[2] == spec_category_for_op(op)); }
        if spec_category_for_op(op) == "paint"@ { assert(names[3] == spec_category_for_op(op)); }
        if spec_category_for_op(op) == "clip"@ { assert(names[4] == spec_category_for_op(op)); }
        if spec_category_for_op(op) == "textobj"@ { assert(names[5] == spec_category_for_op(op)); }
        if spec_category_for_op(op) == "textstate"@ { assert(names[6] == spec_category_for_op(op)); }
        if spec_category_for_op(op) == "textpos"@ { assert(names[7] == spec_category_for_op(op)); }
        if spec_category_for_op(op) == "textshow"@ { assert(names[8] == spec_category_for_op(op)); }
        if spec_category_for_op(op) == "type3"@ { assert(names[9] == spec_category_for_op(op)); }
        if spec_category_for_op(op) == "color"@ { assert(names[10] == spec_category_for_op(op)); }
        if spec_category_for_op(op) == "shading"@ { assert(names[11] == spec_category_for_op(op)); }
        if spec_category_for_op(op) == "inline"@ { assert(names[12] == spec_category_for_op(op)); }
        if spec_category_for_op(op) == "xobject"@ { assert(names[13] == spec_category_for_op(op)); }
        if spec_category_for_op(op) == "marked"@ { assert(names[14] == spec_category_for_op(op)); }
        if spec_category_for_op(op) == "compat"@ { assert(names[15] == spec_category_for_op(op)); }
    }
}

/// The text that std's `Display` writes for the integer `n`, as
/// `to_string` gives it: a minus sign for a negative number, then the decimal
/// digits of its magnitude.
pub open spec fn integer_text(n: int) -> Seq<char> {
    if n < 0 {
        seq!['-'] + decimal_text((-n) as nat)
    } else {
        decimal_text(n as nat)
    }
}

/// A short ASCII word that begins like no operand and, when three bytes long,
/// does not begin like `inf` or `nan`, is an operator.
proof fn lemma_short_word_is_operator(b: Seq<u8>)
    requires
        1 <= b.len() <= 3,
        !starts_operand(b[0]),
        b.len() == 3 ==> ascii_lower(b[0]) != 105 && ascii_lower(b[0]) != 110,
    ensures
        spec_is_pdf_operator(b),
{
    let l = b.map_values(|x: u8| ascii_lower(x));
    assert(l.len() == b.len());
    if b.len() == 3 {
        assert(l[0] == ascii_lower(b[0]));
        assert(l != seq![105u8, 110, 102]);
        assert(l != seq![110u8, 97, 110]);
    }
    assert(l != seq![105u8, 110, 102, 105, 110, 105, 116, 121]);
    assert(b != seq![116u8, 114, 117, 101]);
    assert(b != seq![102u8, 97, 108, 115, 101]);
    assert(b != seq![110u8, 117, 108, 108]);
}

/// Each listed operator is ASCII text that the tokenizer classes as an
/// operator.
#[verifier::rlimit(100)]
proof fn lemma_listed_op_is_operator(cat: Seq<char>, k: int)
    requires
        0 <= k < spec_ops_for_category(cat).len(),
    ensures
        is_ascii_chars(spec_ops_for_category(cat)[k]),
        spec_is_pdf_operator(encode_utf8(spec_ops_for_category(cat)[k])),
{
    lemma_category_literals();
    lemma_lists_spelled_out();
    let op = spec_ops_for_category(cat)[k];
    lemma_listed_op_is_ascii(cat, k);
    is_ascii_chars_encode_utf8(op);
    let b = encode_utf8(op);
    assert(b.len() == op.len());
    if cat == "gstate"@ {
        if k == 0 {
            assert(op == "w"@);
            assert(b[0] == 119u8);
            lemma_short_word_is_operator(b);
        }
        if k == 1 {
            assert(op == "J"@);
            assert(b[0] == 74u8);
            lemma_short_word_is_operator(b);
        }
        if k == 2 {
            assert(op == "j"@);
            assert(b[0] == 106u8);
            lemma_short_word_is_operator(b);
        }
        if k == 3 {
            assert(op == "M"@);
            assert(b[0] == 77u8);
            lemma_short_word_is_operator(b);
        }
        if k == 4 {
            assert(op == "d"@);
            assert(b[0] == 100u8);
            lemma_short_word_is_operator(b);
        }
        if k == 5 {
            assert(op == "ri"@);
            assert(b[0] == 114u8);
            lemma_short_word_is_operator(b);
        }
        if k == 6 {
            assert(op == "i"@);
            assert(b[0] == 105u8);
            lemma_short_word_is_operator(b);
        }
        if k == 7 {
            assert(op == "gs"@);
            assert(b[0] == 103u8);
            lemma_short_word_is_operator(b);
        }
    }
    if cat == "special"@ {
        if k == 0 {
            assert(op == "q"@);
            assert(b[0] == 113u8);
            lemma_short_word_is_operator(b);
        }
        if k == 1 {
            assert(op == "Q"@);
            assert(b[0] == 81u8);
            lemma_short_word_is_operator(b);
        }
        if k == 2 {
            assert(op == "cm"@);
            assert(b[0] == 99u8);
            lemma_short_word_is_operator(b);
        }
    }
    if cat == "path"@ {
        if k == 0 {
            assert(op == "m"@);
            assert(b[0] == 109u8);
            lemma_short_word_is_operator(b);
        }
        if k == 1 {
            assert(op == "l"@);
            assert(b[0] == 108u8);
            lemma_short_word_is_operator(b);
        }
        if k == 2 {
            assert(op == "c"@);
            assert(b[0] == 99u8);
            lemma_short_word_is_operator(b);
        }
        if k == 3 {
            assert(op == "v"@);
            assert(b[0] == 118u8);
            lemma_short_word_is_operator(b);
        }
        if k == 4 {
            assert(op == "y"@);
            assert(b[0] == 121u8);
            lemma_short_word_is_operator(b);
        }
        if k == 5 {
            assert(op == "h"@);
            assert(b[0] == 104u8);
            lemma_short_word_is_operator(b);
        }
        if k == 6 {
            assert(op == "re"@);
            assert(b[0] == 114u8);
            lemma_short_word_is_operator(b);
        }
    }
    if cat == "paint"@ {
        if k == 0 {
            assert(op == "S"@);
            assert(b[0] == 83u8);
            lemma_short_word_is_operator(b);
        }
        if k == 1 {
            assert(op == "s"@);
            assert(b[0] == 115u8);
            lemma_short_word_is_operator(b);
        }
        if k == 2 {
            assert(op == "f"@);
            assert(b[0] == 102u8);
            lemma_short_word_is_operator(b);
        }
        if k == 3 {
            assert(op == "F"@);
            assert(b[0] == 70u8);
            lemma_short_word_is_operator(b);
        }
        if k == 4 {
            assert(op == "f*"@);
            assert(b[0] == 102u8);
            lemma_short_word_is_operator(b);
        }
        if k == 5 {
            assert(op == "B"@);
            assert(b[0] == 66u8);
            lemma_short_word_is_operator(b);
        }
        if k == 6 {
            assert(op == "B*"@);
            assert(b[0] == 66u8);
            lemma_short_word_is_operator(b);
        }
        if k == 7 {
            assert(op == "b"@);
            assert(b[0] == 98u8);
            lemma_short_word_is_operator(b);
        }
        if k == 8 {
            assert(op == "b*"@);
            assert(b[0] == 98u8);
            lemma_short_word_is_operator(b);
        }
        if k == 9 {
            assert(op == "n"@);
            assert(b[0] == 110u8);
            lemma_short_word_is_operator(b);
        }
    }
    if cat == "clip"@ {
        if k == 0 {
            assert(op == "W"@);
            assert(b[0] == 87u8);
            lemma_short_word_is_operator(b);
        }
        if k == 1 {
            assert(op == "W*"@);
            assert(b[0] == 87u8);
            lemma_short_word_is_operator(b);
        }
    }
    if cat == "textobj"@ {
        if k == 0 {
            assert(op == "BT"@);
            assert(b[0] == 66u8);
            lemma_short_word_is_operator(b);
        }
        if k == 1 {
            assert(op == "ET"@);
            assert(b[0] == 69u8);
            lemma_short_word_is_operator(b);
        }
    }
    if cat == "textstate"@ {
        if k == 0 {
            assert(op == "Tc"@);
            assert(b[0] == 84u8);
            lemma_short_word_is_operator(b);
        }
        if k == 1 {
            assert(op == "Tw"@);
            assert(b[0] == 84u8);
            lemma_short_word_is_operator(b);
        }
        if k == 2 {
            assert(op == "Tz"@);
            assert(b[0] == 84u8);
            lemma_short_word_is_operator(b);
        }
        if k == 3 {
            assert(op == "TL"@);
            assert(b[0] == 84u8);
            lemma_short_word_is_operator(b);
        }
        if k == 4 {
            assert(op == "Tf"@);
            assert(b[0] == 84u8);
            lemma_short_word_is_operator(b);
        }
        if k == 5 {
            assert(op == "Tr"@);
            assert(b[0] == 84u8);
            lemma_short_word_is_operator(b);
        }
        if k == 6 {
            assert(op == "Ts"@);
            assert(b[0] == 84u8);
            lemma_short_word_is_operator(b);
        }
    }
    if cat == "textpos"@ {
        if k == 0 {
            assert(op == "Td"@);
            assert(b[0] == 84u8);
            lemma_short_word_is_operator(b);
        }
        if k == 1 {
            assert(op == "TD"@);
            assert(b[0] == 84u8);
            lemma_short_word_is_operator(b);
        }
        if k == 2 {
            assert(op == "Tm"@);
            assert(b[0] == 84u8);
            lemma_short_word_is_operator(b);
        }
        if k == 3 {
            assert(op == "T*"@);
            assert(b[0] == 84u8);
            lemma_short_word_is_operator(b);
        }
    }
    if cat == "textshow"@ {
        if k == 0 {
            assert(op == "Tj"@);
            assert(b[0] == 84u8);
            lemma_short_word_is_operator(b);
        }
        if k == 1 {
            assert(op == "TJ"@);
            assert(b[0] == 84u8);
            lemma_short_word_is_operator(b);
        }
        if k == 2 {
            assert(op == "'"@);
            assert(b[0] == 39u8);
            lemma_short_word_is_operator(b);
        }
        if k == 3 {
            assert(op == "\""@);
            assert(b[0] == 34u8);
            lemma_short_word_is_operator(b);
        }
    }
    if cat == "type3"@ {
        if k == 0 {
            assert(op == "d0"@);
            assert(b[0] == 100u8);
            lemma_short_word_is_operator(b);
        }
        if k == 1 {
            assert(op == "d1"@);
            assert(b[0] == 100u8);
            lemma_short_word_is_operator(b);
        }
    }
    if cat == "color"@ {
        if k == 0 {
            assert(op == "CS"@);
            assert(b[0] == 67u8);
            lemma_short_word_is_operator(b);
        }
        if k == 1 {
            assert(op == "cs"@);
            assert(b[0] == 99u8);
            lemma_short_word_is_operator(b);
        }
        if k == 2 {
            assert(op == "SC"@);
            assert(b[0] == 83u8);
            lemma_short_word_is_operator(b);
        }
        if k == 3 {
            assert(op == "SCN"@);
            assert(b[0] == 83u8);
            lemma_short_word_is_operator(b);
        }
        if k == 4 {
            assert(op == "sc"@);
            assert(b[0] == 115u8);
            lemma_short_word_is_operator(b);
        }
        if k == 5 {
            assert(op == "scn"@);
            assert(b[0] == 115u8);
            lemma_short_word_is_operator(b);
        }
        if k == 6 {
            assert(op == "G"@);
            assert(b[0] == 71u8);
            lemma_short_word_is_operator(b);
        }
        if k == 7 {
            assert(op == "g"@);
            assert(b[0] == 103u8);
            lemma_short_word_is_operator(b);
        }
        if k == 8 {
            assert(op == "RG"@);
            assert(b[0] == 82u8);
            lemma_short_word_is_operator(b);
        }
        if k == 9 {
            assert(op == "rg"@);
            assert(b[0] == 114u8);
            lemma_short_word_is_operator(b);
        }
        if k == 10 {
            assert(op == "K"@);
            assert(b[0] == 75u8);
            lemma_short_word_is_operator(b);
        }
        if k == 11 {
            assert(op == "k"@);
            assert(b[0] == 107u8);
            lemma_short_word_is_operator(b);
        }
    }
    if cat == "shading"@ {
        if k == 0 {
            assert(op == "sh"@);
            assert(b[0] == 115u8);
            lemma_short_word_is_operator(b);
        }
    }
    if cat == "inline"@ {
        if k == 0 {
            assert(op == "BI"@);
            assert(b[0] == 66u8);
            lemma_short_word_is_operator(b);
        }
        if k == 1 {
            assert(op == "ID"@);
            assert(b[0] == 73u8);
            lemma_short_word_is_operator(b);
        }
        if k == 2 {
            assert(op == "EI"@);
            assert(b[0] == 69u8);
            lemma_short_word_is_operator(b);
        }
    }
    if cat == "xobject"@ {
        if k == 0 {
            assert(op == "Do"@);
            assert(b[0] == 68u8);
            lemma_short_word_is_operator(b);
        }
    }
    if cat == "marked"@ {
        if k == 0 {
            assert(op == "MP"@);
            assert(b[0] == 77u8);
            lemma_short_word_is_operator(b);
        }
        if k == 1 {
            assert(op == "DP"@);
            assert(b[0] == 68u8);
            lemma_short_word_is_operator(b);
        }
        if k == 2 {
            assert(op == "BMC"@);
            assert(b[0] == 66u8);
            lemma_short_word_is_operator(b);
        }
        if k == 3 {
            assert(op == "BDC"@);
            assert(b[0] == 66u8);
            lemma_short_word_is_operator(b);
        }
        if k == 4 {
            assert(op == "EMC"@);
            assert(b[0] == 69u8);
            lemma_short_word_is_operator(b);
        }
    }
    if cat == "compat"@ {
        if k == 0 {
            assert(op == "BX"@);
            assert(b[0] == 66u8);
            lemma_short_word_is_operator(b);
        }
        if k == 1 {
            assert(op == "EX"@);
            assert(b[0] == 69u8);
            lemma_short_word_is_operator(b);
        }
    }
}

/// Each listed operator is ASCII text.
#[verifier::rlimit(100)]
proof fn lemma_listed_op_is_ascii(cat: Seq<char>, k: int)
    requires
        0 <= k < spec_ops_for_category(cat).len(),
    ensures
        is_ascii_chars(spec_ops_for_category(cat)[k]),
{
    lemma_category_literals();
    lemma_lists_spelled_out();
}

/// The text of an integer is ASCII and begins with a minus sign or a digit.
proof fn lemma_integer_text(n: int)
    ensures
        is_ascii_chars(integer_text(n)),
        integer_text(n).len() > 0,
        integer_text(n)[0] == '-' || is_digit(integer_text(n)[0]),
{
    let m: nat = if n < 0 { (-n) as nat } else { n as nat };
    lemma_decimal_text(m);
    let d = decimal_text(m);
    let t = integer_text(n);
    assert(is_digit(d[0]));
    assert forall|i: int| 0 <= i < t.len() implies '\0' <= #[trigger] t[i] <= '\u{7f}' by {
        if n < 0 {
            if i > 0 {
                assert(t[i] == d[i - 1]);
                assert(is_digit(d[i - 1]));
            }
        } else {
            assert(is_digit(d[i]));
        }
    }
}

/// Every listed operator, as its UTF-8 bytes (what `str::as_bytes` gives
/// for it), is classed as an operator by the tokenizer, and no integer,
/// written as `to_string` writes it, is.
pub proof fn lemma_listed_ops_are_operators()
    ensures
        forall|cat: Seq<char>, k: int|
            0 <= k < spec_ops_for_category(cat).len() ==> spec_is_pdf_operator(
                encode_utf8(#[trigger] spec_ops_for_category(cat)[k]),
            ),
        forall|n: int| !spec_is_pdf_operator(#[trigger] encode_utf8(integer_text(n))),
{
    assert forall|cat: Seq<char>, k: int|
        0 <= k < spec_ops_for_category(cat).len() implies spec_is_pdf_operator(
            encode_utf8(#[trigger] spec_ops_for_category(cat)[k]),
        ) by {
        lemma_listed_op_is_operator(cat, k);
    }
    assert forall|n: int| !spec_is_pdf_operator(#[trigger] encode_utf8(integer_text(n))) by {
        lemma_integer_text(n);
        let t = integer_text(n);
        is_ascii_chars_encode_utf8(t);
        assert(encode_utf8(t)[0] == t[0] as u8);
        assert(starts_operand(encode_utf8(t)[0]));
    }
}

} // verus!
