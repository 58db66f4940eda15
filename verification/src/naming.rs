//! Deterministic names: the dataset path inside the hierarchical store, the
//! stem of the source file, and the per-pair output file name.

use vstd::prelude::*;

verus! {

use vstd::string::StrSliceExecFns;
use vstd::string::StringExecFns;

/// The decimal digit character for `d` (`0` to `9`).
pub open spec fn digit_char(d: nat) -> char {
    if d == 0 {
        '0'
    } else if d == 1 {
        '1'
    } else if d == 2 {
        '2'
    } else if d == 3 {
        '3'
    } else if d == 4 {
        '4'
    } else if d == 5 {
        '5'
    } else if d == 6 {
        '6'
    } else if d == 7 {
        '7'
    } else if d == 8 {
        '8'
    } else {
        '9'
    }
}

/// The decimal digit string of `n`: most significant digit first, no sign,
/// no leading zero, and a single `'0'` for zero.
pub open spec fn dec_digits(n: nat) -> Seq<char>
    decreases n,
{
    if n < 10 {
        seq![digit_char(n)]
    } else {
        dec_digits(n / 10) + seq![digit_char(n % 10)]
    }
}

fn digit_str(d: usize) -> (r: &'static str)
    requires
        d < 10,
    ensures
        r@ == seq![digit_char(d as nat)],
{
    if d == 0 {
        proof {
            reveal_strlit("0");
            assert("0"@ =~= seq![digit_char(0)]);
        }
        "0"
    } else if d == 1 {
        proof {
            reveal_strlit("1");
            assert("1"@ =~= seq![digit_char(1)]);
        }
        "1"
    } else if d == 2 {
        proof {
            reveal_strlit("2");
            assert("2"@ =~= seq![digit_char(2)]);
        }
        "2"
    } else if d == 3 {
        proof {
            reveal_strlit("3");
            assert("3"@ =~= seq![digit_char(3)]);
        }
        "3"
    } else if d == 4 {
        proof {
            reveal_strlit("4");
            assert("4"@ =~= seq![digit_char(4)]);
        }
        "4"
    } else if d == 5 {
        proof {
            reveal_strlit("5");
            assert("5"@ =~= seq![digit_char(5)]);
        }
        "5"
    } else if d == 6 {
        proof {
            reveal_strlit("6");
            assert("6"@ =~= seq![digit_char(6)]);
        }
        "6"
    } else if d == 7 {
        proof {
            reveal_strlit("7");
            assert("7"@ =~= seq![digit_char(7)]);
        }
        "7"
    } else if d == 8 {
        proof {
            reveal_strlit("8");
            assert("8"@ =~= seq![digit_char(8)]);
        }
        "8"
    } else {
        proof {
            reveal_strlit("9");
            assert("9"@ =~= seq![digit_char(9)]);
        }
        "9"
    }
}

/// Formats `n` in decimal.
pub fn fmt_usize(n: usize) -> (r: String)
    ensures
        r@ == dec_digits(n as nat),
    decreases n,
{
    if n < 10 {
        String::from_str(digit_str(n))
    } else {
        proof {
            vstd::arithmetic::div_mod::lemma_div_decreases(n as int, 10);
            vstd::arithmetic::div_mod::lemma_div_pos_is_pos(n as int, 10);
        }
        let mut s = fmt_usize(n / 10);
        s.append(digit_str(n % 10));
        s
    }
}

/// A path separator: the store paths use `/`, source file paths may use either.
pub open spec fn is_sep(c: char) -> bool {
    c == '/' || c == '\\'
}

/// Index just past the last separator among the first `k` characters of `p`.
pub open spec fn base_start_from(p: Seq<char>, k: int) -> int
    decreases k,
{
    if k <= 0 {
        0
    } else if is_sep(p[k - 1]) {
        k
    } else {
        base_start_from(p, k - 1)
    }
}

/// Index of the last `'.'` in `p` strictly after `s` and before `k`;
/// `p.len()` when there is none.
pub open spec fn last_dot_from(p: Seq<char>, s: int, k: int) -> int
    decreases k,
{
    if k <= 0 || k <= s + 1 {
        p.len() as int
    } else if p[k - 1] == '.' {
        k - 1
    } else {
        last_dot_from(p, s, k - 1)
    }
}

/// The stem of a path: its last component without the extension. A dot that
/// opens the component does not start an extension.
pub open spec fn stem_chars(p: Seq<char>) -> Seq<char> {
    let s = base_start_from(p, p.len() as int);
    p.subrange(s, last_dot_from(p, s, p.len() as int))
}

proof fn lemma_last_dot_bounds(p: Seq<char>, s: int, k: int)
    requires
        0 <= s,
        k <= p.len(),
    ensures
        last_dot_from(p, s, k) == p.len() || s < last_dot_from(p, s, k) < k,
    decreases k,
{
    if !(k <= s + 1) && !(p[k - 1] == '.') {
        lemma_last_dot_bounds(p, s, k - 1);
    }
}

/// Extracts the stem of `path`: the characters of its last component up to
/// the last dot of that component.
pub fn file_stem(path: &str) -> (r: String)
    ensures
        r@ == stem_chars(path@),
{
    let len = path.unicode_len();
    let mut start: usize = len;
    loop
        invariant
            start <= len,
            len == path@.len(),
            base_start_from(path@, len as int) == base_start_from(path@, start as int),
        ensures
            start <= len,
            len == path@.len(),
            start as int == base_start_from(path@, len as int),
        decreases start,
    {
        if start == 0 {
            break ;
        }
        let c = path.get_char(start - 1);
        if c == '/' || c == '\\' {
            break ;
        }
        start = start - 1;
    }
    let ghost s = start as int;
    let mut k: usize = len;
    let mut end: usize = len;
    loop
        invariant_except_break
            end == len,
        invariant
            s == start as int,
            start <= len,
            k <= len,
            len == path@.len(),
            last_dot_from(path@, s, len as int) == last_dot_from(path@, s, k as int),
        ensures
            end as int == last_dot_from(path@, s, len as int),
            end <= len,
        decreases k,
    {
        if k == 0 {
            break ;
        }
        if k - 1 <= start {
            break ;
        }
        let c = path.get_char(k - 1);
        if c == '.' {
            end = k - 1;
            break ;
        }
        k = k - 1;
    }
    proof {
        lemma_last_dot_bounds(path@, s, len as int);
    }
    let stem = path.substring_char(start, end);
    String::from_str(stem)
}

/// The location of one 3D dataset inside the hierarchical store, for a given
/// resolution level and channel.
pub open spec fn dataset_path_chars(res: nat, chan: nat) -> Seq<char> {
    "DataSet/ResolutionLevel "@ + dec_digits(res) + "/TimePoint 0/Channel "@ + dec_digits(chan)
        + "/Data"@
}

/// Builds the store-internal path of the dataset for `(res, chan)`.
pub fn dataset_path(res: usize, chan: usize) -> (r: String)
    ensures
        r@ == dataset_path_chars(res as nat, chan as nat),
{
    let mut p = String::from_str("DataSet/ResolutionLevel ");
    let rs = fmt_usize(res);
    p.append(rs.as_str());
    p.append("/TimePoint 0/Channel ");
    let cs = fmt_usize(chan);
    p.append(cs.as_str());
    p.append("/Data");
    p
}

/// The name of the output container for `(res, chan)`, derived from the
/// source file's stem.
pub open spec fn output_name_chars(stem: Seq<char>, res: nat, chan: nat) -> Seq<char> {
    stem + "_Res"@ + dec_digits(res) + "_Chan"@ + dec_digits(chan) + ".tif"@
}

/// Builds the output container's file name for `(res, chan)`.
pub fn output_file_name(stem: &str, res: usize, chan: usize) -> (r: String)
    ensures
        r@ == output_name_chars(stem@, res as nat, chan as nat),
{
    let mut name = String::from_str(stem);
    name.append("_Res");
    let rs = fmt_usize(res);
    name.append(rs.as_str());
    name.append("_Chan");
    let cs = fmt_usize(chan);
    name.append(cs.as_str());
    name.append(".tif");
    name
}

} // verus!
