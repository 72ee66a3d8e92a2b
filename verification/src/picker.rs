use vstd::prelude::*;

verus! {

/// ASCII whitespace, as trimmed from the selection prompt's input line.
pub open spec fn is_space(b: u8) -> bool {
    b == 32 || (9 <= b <= 13)
}

/// A decimal digit byte.
pub open spec fn is_digit(b: u8) -> bool {
    48 <= b <= 57
}

/// `s` without its leading whitespace.
pub open spec fn trim_start(s: Seq<u8>) -> Seq<u8>
    decreases s.len(),
{
    if s.len() > 0 && is_space(s[0]) {
        trim_start(s.drop_first())
    } else {
        s
    }
}

/// `s` without its trailing whitespace.
pub open spec fn trim_end(s: Seq<u8>) -> Seq<u8>
    decreases s.len(),
{
    if s.len() > 0 && is_space(s.last()) {
        trim_end(s.drop_last())
    } else {
        s
    }
}

/// `s` without leading and trailing whitespace.
pub open spec fn trimmed(s: Seq<u8>) -> Seq<u8> {
    trim_end(trim_start(s))
}

/// The numeric value of a digit string, most significant first.
pub open spec fn digits_value(s: Seq<u8>) -> int
    decreases s.len(),
{
    if s.len() == 0 {
        0
    } else {
        digits_value(s.drop_last()) * 10 + (s.last() - 48)
    }
}

/// Every byte of `s` is a decimal digit.
pub open spec fn all_digits(s: Seq<u8>) -> bool {
    forall|j: int| 0 <= j < s.len() ==> is_digit(#[trigger] s[j])
}

/// The unsigned number a byte string denotes: an optional leading `+`,
/// then one or more decimal digits, of any magnitude.  Anything else
/// denotes nothing.
pub open spec fn parse_unsigned(s: Seq<u8>) -> Option<int> {
    let body = if s.len() > 0 && s[0] == 43 {
        s.drop_first()
    } else {
        s
    };
    if body.len() > 0 && all_digits(body) {
        Option::Some(digits_value(body))
    } else {
        Option::None
    }
}

/// What a selection prompt answer resolves to among `count` listed files:
/// the trimmed line must denote a number `v` with `1 <= v <= count`, and
/// then names the file at zero-based index `v - 1`.  A line that denotes
/// nothing, zero, or a number past the list resolves to nothing.
pub open spec fn spec_selection(s: Seq<u8>, count: int) -> Option<int> {
    match parse_unsigned(trimmed(s)) {
        Option::Some(v) => if 1 <= v && v <= count {
            Option::Some(v - 1)
        } else {
            Option::None
        },
        Option::None => Option::None,
    }
}

/// The value of a digit string bounds the value of each of its prefixes,
/// and is never negative.
proof fn lemma_digits_prefix_le(s: Seq<u8>, k: int)
    requires
        0 <= k <= s.len(),
        all_digits(s),
    ensures
        digits_value(s) >= digits_value(s.take(k)) >= 0,
    decreases s.len() - k,
{
    assert(forall|j: int| 0 <= j < s.take(k).len() ==> is_digit(#[trigger] s.take(k)[j]));
    lemma_digits_nonneg(s.take(k));
    if k < s.len() {
        lemma_digits_prefix_le(s, k + 1);
        assert(s.take(k + 1).drop_last() =~= s.take(k));
        assert(s.take(k + 1).last() == s[k]);
    } else {
        assert(s.take(k) =~= s);
    }
}

/// A digit string's value is never negative.
proof fn lemma_digits_nonneg(s: Seq<u8>)
    requires
        all_digits(s),
    ensures
        digits_value(s) >= 0,
    decreases s.len(),
{
    if s.len() > 0 {
        assert(forall|j: int|
            0 <= j < s.drop_last().len() ==> is_digit(#[trigger] s.drop_last()[j]));
        lemma_digits_nonneg(s.drop_last());
    }
}

/// Resolves the answer to the selection prompt against a list of `count`
/// files: trims the line, reads it as a decimal number (an optional `+`
/// sign is accepted), and returns the zero-based index it names.  Returns
/// `None` for a line that is not a number, names zero, or names a file
/// past the end of the list.
pub fn resolve_selection(input: &[u8], count: usize) -> (r: Option<usize>)
    ensures
        match r {
            Option::Some(k) => spec_selection(input@, count as int) == Option::Some(k as int),
            Option::None => spec_selection(input@, count as int) is None,
        },
{
    let len = input.len();
    let mut lo: usize = 0;
    proof {
        assert(input@.skip(0) =~= input@);
    }
    while lo < len && (input[lo] == 32 || (9 <= input[lo] && input[lo] <= 13))
        invariant
            len == input@.len(),
            0 <= lo <= len,
            trim_start(input@) == trim_start(input@.skip(lo as int)),
        decreases len - lo,
    {
        proof {
            let s = input@.skip(lo as int);
            assert(s[0] == input@[lo as int]);
            assert(s.drop_first() =~= input@.skip(lo as int + 1));
        }
        lo = lo + 1;
    }
    proof {
        if lo < len {
            assert(input@.skip(lo as int)[0] == input@[lo as int]);
        }
        assert(trim_start(input@) == input@.skip(lo as int));
    }
    let mut hi: usize = len;
    proof {
        assert(input@.subrange(lo as int, len as int) =~= input@.skip(lo as int));
    }
    while hi > lo && (input[hi - 1] == 32 || (9 <= input[hi - 1] && input[hi - 1] <= 13))
        invariant
            len == input@.len(),
            0 <= lo <= hi <= len,
            trim_end(input@.skip(lo as int)) == trim_end(input@.subrange(lo as int, hi as int)),
        decreases hi,
    {
        proof {
            let s = input@.subrange(lo as int, hi as int);
            assert(s.last() == input@[hi as int - 1]);
            assert(s.drop_last() =~= input@.subrange(lo as int, hi as int - 1));
        }
        hi = hi - 1;
    }
    proof {
        if hi > lo {
            assert(input@.subrange(lo as int, hi as int).last() == input@[hi as int - 1]);
        }
        assert(trimmed(input@) == input@.subrange(lo as int, hi as int));
    }
    let mut p: usize = lo;
    if p < hi && input[p] == 43 {
        p = p + 1;
    }
    proof {
        let t = input@.subrange(lo as int, hi as int);
        if p > lo {
            assert(t[0] == input@[lo as int]);
            assert(t.drop_first() =~= input@.subrange(p as int, hi as int));
        } else {
            assert(t =~= input@.subrange(p as int, hi as int));
        }
    }
    if p == hi {
        proof {
            let t = input@.subrange(lo as int, hi as int);
            if p > lo {
                assert(t.drop_first().len() == 0);
            }
            assert(parse_unsigned(trimmed(input@)) is None);
        }
        return Option::None;
    }
    let ghost body = input@.subrange(p as int, hi as int);
    proof {
        let t = input@.subrange(lo as int, hi as int);
        assert(body.len() == hi - p);
        assert(parse_unsigned(t) == (if all_digits(body) {
            Option::Some(digits_value(body))
        } else {
            Option::<int>::None
        }));
    }
    let mut acc: usize = 0;
    let mut idx: usize = p;
    while idx < hi
        invariant
            len == input@.len(),
            0 <= p <= idx <= hi <= len,
            p < hi,
            body == input@.subrange(p as int, hi as int),
            forall|j: int| 0 <= j < idx - p ==> is_digit(#[trigger] body[j]),
            acc == digits_value(body.take(idx - p)),
            parse_unsigned(trimmed(input@)) == (if all_digits(body) {
                Option::Some(digits_value(body))
            } else {
                Option::<int>::None
            }),
        decreases hi - idx,
    {
        let b = input[idx];
        proof {
            assert(body[idx - p] == input@[idx as int]);
        }
        if b < 48 || b > 57 {
            proof {
                assert(!is_digit(body[idx - p]));
                assert(!all_digits(body));
                assert(parse_unsigned(trimmed(input@)) is None);
            }
            return Option::None;
        }
        let d = (b - 48) as usize;
        proof {
            assert(body.take(idx - p + 1).drop_last() =~= body.take(idx - p));
            assert(body.take(idx - p + 1).last() == body[idx - p]);
        }
        if acc > (usize::MAX - d) / 10 {
            proof {
                assert(acc * 10 + d > usize::MAX) by (nonlinear_arith)
                    requires
                        acc > (usize::MAX - d) / 10,
                        d <= 9,
                ;
                if all_digits(body) {
                    lemma_digits_prefix_le(body, idx - p + 1);
                    assert(digits_value(body) > usize::MAX);
                }
            }
            return Option::None;
        }
        proof {
            assert(acc * 10 + d <= usize::MAX) by (nonlinear_arith)
                requires
                    acc <= (usize::MAX - d) / 10,
                    d <= 9,
            ;
        }
        acc = acc * 10 + d;
        idx = idx + 1;
    }
    proof {
        assert(body.take(hi - p) =~= body);
        assert(all_digits(body));
    }
    if 1 <= acc && acc <= count {
        Some(acc - 1)
    } else {
        None
    }
}

/// A file name carries the `.stl` extension: it ends in those four bytes
/// with at least one byte before them, the match case-sensitive.  This is
/// the path-name rule under which a lone leading dot marks a hidden file,
/// not an extension.
pub open spec fn spec_has_stl_extension(name: Seq<u8>) -> bool {
    name.len() >= 5 && name.subrange(name.len() - 4, name.len() as int) == seq![
        46u8,
        115u8,
        116u8,
        108u8,
    ]
}

/// Decides whether a file name carries the `.stl` extension.
pub fn has_stl_extension(name: &[u8]) -> (r: bool)
    ensures
        r == spec_has_stl_extension(name@),
{
    let len = name.len();
    if len < 5 {
        return false;
    }
    let r = name[len - 4] == 46 && name[len - 3] == 115 && name[len - 2] == 116 && name[len - 1]
        == 108;
    proof {
        let tail = name@.subrange(len - 4, len as int);
        assert(tail.len() == 4);
        assert(tail[0] == name@[len - 4]);
        assert(tail[1] == name@[len - 3]);
        assert(tail[2] == name@[len - 2]);
        assert(tail[3] == name@[len - 1]);
        if r {
            assert(tail =~= seq![46u8, 115u8, 116u8, 108u8]);
        }
    }
    r
}

/// The stem of a file name carrying the `.stl` extension: everything
/// before the final four bytes.
pub fn stl_file_stem(name: &[u8]) -> (r: Vec<u8>)
    requires
        spec_has_stl_extension(name@),
    ensures
        r@ == name@.subrange(0, name@.len() - 4),
{
    let end = name.len() - 4;
    let mut out: Vec<u8> = Vec::new();
    let mut i: usize = 0;
    while i < end
        invariant
            end <= name@.len(),
            0 <= i <= end,
            out@ =~= name@.subrange(0, i as int),
        decreases end - i,
    {
        out.push(name[i]);
        proof {
            assert(out@ =~= name@.subrange(0, i as int + 1));
        }
        i = i + 1;
    }
    out
}

/// The suffix of the upper output's file name.
pub open spec fn upper_suffix() -> Seq<u8> {
    seq![95u8, 117u8, 112u8, 112u8, 101u8, 114u8, 46u8, 115u8, 116u8, 108u8]
}

/// The suffix of the lower output's file name.
pub open spec fn lower_suffix() -> Seq<u8> {
    seq![95u8, 108u8, 111u8, 119u8, 101u8, 114u8, 46u8, 115u8, 116u8, 108u8]
}

/// Builds an output file name from the input's stem: the stem followed by
/// `_upper.stl` or `_lower.stl`.
pub fn output_file_name(stem: &[u8], upper: bool) -> (r: Vec<u8>)
    ensures
        r@ == stem@ + if upper {
            upper_suffix()
        } else {
            lower_suffix()
        },
{
    let mut out: Vec<u8> = Vec::new();
    let mut i: usize = 0;
    let len = stem.len();
    while i < len
        invariant
            len == stem@.len(),
            0 <= i <= len,
            out@ =~= stem@.subrange(0, i as int),
        decreases len - i,
    {
        out.push(stem[i]);
        proof {
            assert(out@ =~= stem@.subrange(0, i as int + 1));
        }
        i = i + 1;
    }
    proof {
        assert(stem@.subrange(0, len as int) =~= stem@);
    }
    out.push(95);
    if upper {
        out.push(117);
        out.push(112);
        out.push(112);
    } else {
        out.push(108);
        out.push(111);
        out.push(119);
    }
    out.push(101);
    out.push(114);
    out.push(46);
    out.push(115);
    out.push(116);
    out.push(108);
    proof {
        if upper {
            assert(out@ =~= stem@ + upper_suffix());
        } else {
            assert(out@ =~= stem@ + lower_suffix());
        }
    }
    out
}

} // verus!
