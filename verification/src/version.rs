//! The name that a program file's version resource gives: which string tables are read,
//! in what order, and which answer is taken. Reading the resource is the host's part.

use vstd::prelude::*;
use crate::model::opt_view;
use crate::text::{chars_of, concat_chars, string_of, trim_whitespace, trim_ws};

verus! {

broadcast use vstd::string::group_string_axioms;

/// The lower-case hexadecimal digit of `n` (0 to 15).
pub open spec fn hex_digit(n: int) -> char {
    if n < 10 {
        (48 + n) as char
    } else {
        (87 + n) as char
    }
}

/// `v` as four lower-case hexadecimal digits, zero-padded.
pub open spec fn hex4(v: u16) -> Seq<char> {
    seq![
        hex_digit(v as int / 4096),
        hex_digit((v as int / 256) % 16),
        hex_digit((v as int / 16) % 16),
        hex_digit(v as int % 16),
    ]
}

/// The language and code page pairs to try: those the resource lists (pairs of values,
/// an odd last value left out), or US English and Simplified Chinese in Unicode when it
/// lists no full pair.
pub open spec fn translation_pairs(raw: Option<Seq<u16>>) -> Seq<(u16, u16)> {
    match raw {
        Some(r) if r.len() >= 2 => Seq::new(r.len() / 2, |i: int| (r[2 * i], r[2 * i + 1])),
        _ => seq![(0x0409u16, 0x04b0u16), (0x0804u16, 0x04b0u16)],
    }
}

/// The string-table path of `key` for the language and code page `t`.
pub open spec fn version_query(t: (u16, u16), key: Seq<char>) -> Seq<char> {
    "\\StringFileInfo\\"@ + hex4(t.0) + hex4(t.1) + seq!['\\'] + key
}

/// The paths read, in order: the file description in each language, then the product
/// name in each language.
pub open spec fn version_queries(ts: Seq<(u16, u16)>) -> Seq<Seq<char>> {
    ts.map_values(|t: (u16, u16)| version_query(t, "FileDescription"@)) + ts.map_values(
        |t: (u16, u16)| version_query(t, "ProductName"@),
    )
}

/// The UTF-16 text up to its first NUL.
pub open spec fn until_nul(raw: Seq<u16>) -> Seq<u16>
    decreases raw.len(),
{
    if raw.len() == 0 || raw[0] == 0 {
        Seq::empty()
    } else {
        seq![raw[0]] + until_nul(raw.drop_first())
    }
}

/// The first answer that is there and not blank.
pub open spec fn first_named(values: Seq<Option<Seq<char>>>) -> Option<Seq<char>>
    decreases values.len(),
{
    if values.len() == 0 {
        None
    } else {
        match values[0] {
            Some(v) if trim_ws(v).len() > 0 => Some(v),
            _ => first_named(values.drop_first()),
        }
    }
}

/// The contents of an optional vector.
pub open spec fn opt_units(o: Option<Vec<u16>>) -> Option<Seq<u16>> {
    match o {
        Some(v) => Some(v@),
        None => None,
    }
}

/// The language and code page pairs to try, from the values the resource's translation
/// table holds, if it could be read (see `translation_pairs`).
pub fn version_translations(raw: Option<Vec<u16>>) -> (r: Vec<(u16, u16)>)
    ensures
        r@ == translation_pairs(opt_units(raw)),
{
    match raw {
        Some(v) if v.len() >= 2 => {
            let mut out: Vec<(u16, u16)> = Vec::new();
            let n = v.len() / 2;
            assert(2 * n <= v@.len());
            let mut i: usize = 0;
            while i < n
                invariant
                    n == v@.len() / 2,
                    2 * n <= v@.len(),
                    v@.len() == v.len(),
                    i <= n,
                    out@.len() == i,
                    forall|k: int| 0 <= k < i ==> #[trigger] out@[k] == (v@[2 * k], v@[2 * k + 1]),
                decreases n - i,
            {
                assert(2 * i + 1 < v@.len());
                out.push((v[2 * i], v[2 * i + 1]));
                i = i + 1;
            }
            assert(out@ =~= translation_pairs(opt_units(Some(v))));
            out
        },
        _ => {
            let out = vec![(0x0409u16, 0x04b0u16), (0x0804u16, 0x04b0u16)];
            assert(out@ =~= translation_pairs(opt_units(raw)));
            out
        },
    }
}

fn hex_digit_exec(n: u16) -> (c: char)
    requires
        n < 16,
    ensures
        c == hex_digit(n as int),
{
    let b: u8 = n as u8;
    if b < 10 {
        (48u8 + b) as char
    } else {
        (87u8 + b) as char
    }
}

fn hex4_chars(v: u16) -> (r: Vec<char>)
    ensures
        r@ == hex4(v),
{
    let r = vec![hex_digit_exec(v / 4096), hex_digit_exec((v / 256) % 16), hex_digit_exec((v / 16) % 16), hex_digit_exec(v % 16)];
    assert(r@ =~= hex4(v));
    r
}

fn query_for(t: (u16, u16), key: &Vec<char>) -> (r: String)
    ensures
        r@ == version_query(t, key@),
{
    let mut q = chars_of("\\StringFileInfo\\");
    q = concat_chars(&q, &hex4_chars(t.0));
    q = concat_chars(&q, &hex4_chars(t.1));
    q.push('\\');
    q = concat_chars(&q, key);
    string_of(&q)
}

/// The string-table paths to read, in order (see `version_queries`).
pub fn version_name_queries(translations: &Vec<(u16, u16)>) -> (r: Vec<String>)
    ensures
        r@.map_values(|q: String| q@) == version_queries(translations@),
{
    let keys = vec![chars_of("FileDescription"), chars_of("ProductName")];
    let ghost ts = translations@;
    let ghost want = version_queries(ts);
    let mut out: Vec<String> = Vec::new();
    let mut k: usize = 0;
    while k < 2
        invariant
            k <= 2,
            keys@.len() == 2,
            keys@[0]@ == "FileDescription"@,
            keys@[1]@ == "ProductName"@,
            ts == translations@,
            want == version_queries(ts),
            out@.len() == k * ts.len(),
            forall|x: int| 0 <= x < out@.len() ==> #[trigger] out@[x]@ == want[x],
        decreases 2 - k,
    {
        let mut i: usize = 0;
        while i < translations.len()
            invariant
                k < 2,
                i <= ts.len(),
                keys@.len() == 2,
                keys@[0]@ == "FileDescription"@,
                keys@[1]@ == "ProductName"@,
                ts == translations@,
                want == version_queries(ts),
                out@.len() == k * ts.len() + i,
                forall|x: int| 0 <= x < out@.len() ==> #[trigger] out@[x]@ == want[x],
            decreases ts.len() - i,
        {
            let q = query_for(translations[i], &keys[k]);
            proof {
                assert(k * ts.len() + i < want.len()) by (nonlinear_arith)
                    requires
                        k < 2,
                        i < ts.len(),
                        want.len() == 2 * ts.len(),
                ;
                if k == 0 {
                    assert(want[i as int] == version_query(ts[i as int], "FileDescription"@));
                } else {
                    assert(want[ts.len() + i] == version_query(ts[i as int], "ProductName"@));
                }
            }
            out.push(q);
            i = i + 1;
        }
        proof {
            assert((k + 1) * ts.len() == k * ts.len() + ts.len()) by (nonlinear_arith);
        }
        k = k + 1;
    }
    assert(out@.map_values(|q: String| q@) =~= want);
    out
}

/// The UTF-16 text up to its first NUL (see `until_nul`).
pub fn until_nul_units(raw: &Vec<u16>) -> (r: Vec<u16>)
    ensures
        r@ == until_nul(raw@),
{
    let mut out: Vec<u16> = Vec::new();
    let mut i: usize = 0;
    assert(raw@.skip(0) =~= raw@);
    while i < raw.len() && raw[i] != 0
        invariant
            i <= raw@.len(),
            out@ + until_nul(raw@.skip(i as int)) == until_nul(raw@),
        decreases raw.len() - i,
    {
        let ghost rest = raw@.skip(i as int);
        assert(rest.drop_first() =~= raw@.skip(i + 1));
        out.push(raw[i]);
        assert(out@ + until_nul(raw@.skip(i + 1)) =~= until_nul(raw@));
        i = i + 1;
    }
    assert(until_nul(raw@.skip(i as int)) =~= Seq::<u16>::empty());
    assert(out@ =~= until_nul(raw@));
    out
}

/// The name to show from the answers read for `version_name_queries`, in the same order:
/// the first one that is there and not blank (see `first_named`).
pub fn pick_version_name(values: &Vec<Option<String>>) -> (r: Option<String>)
    ensures
        opt_view(r) == first_named(values@.map_values(|o: Option<String>| opt_view(o))),
{
    let ghost vs = values@.map_values(|o: Option<String>| opt_view(o));
    let mut i: usize = 0;
    assert(vs.skip(0) =~= vs);
    while i < values.len()
        invariant
            i <= values@.len(),
            vs == values@.map_values(|o: Option<String>| opt_view(o)),
            first_named(vs) == first_named(vs.skip(i as int)),
        decreases values.len() - i,
    {
        assert(vs.skip(i as int).drop_first() =~= vs.skip(i + 1));
        assert(vs.skip(i as int)[0] == opt_view(values@[i as int]));
        match &values[i] {
            Some(v) => {
                if trim_whitespace(&chars_of(v.as_str())).len() > 0 {
                    return Some(v.clone());
                }
            },
            None => {},
        }
        i = i + 1;
    }
    assert(vs.skip(i as int) =~= Seq::<Option<Seq<char>>>::empty());
    None
}

} // verus!
