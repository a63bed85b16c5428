//! Structured diffs: parsing the unified diff format and the numstat
//! summary that the version-control tool prints, into plain data.

use vstd::prelude::*;
use vstd::string::StrSliceExecFns;

verus! {

/// The characters of a string slice, as a vector.
pub fn chars_of(s: &str) -> (r: Vec<char>)
    ensures
        r@ == s@,
{
    let n = s.unicode_len();
    let mut out: Vec<char> = Vec::new();
    let mut i: usize = 0;
    while i < n
        invariant
            n == s@.len(),
            i <= n,
            out@.len() == i,
            forall|j: int| 0 <= j < i ==> out@[j] == s@[j],
        decreases n - i,
    {
        out.push(s.get_char(i));
        i += 1;
    }
    proof {
        assert(out@ =~= s@);
    }
    out
}

/// A string holding exactly the characters of a range of `s`.
pub fn string_from_range(s: &Vec<char>, lo: usize, hi: usize) -> (r: String)
    requires
        lo <= hi <= s@.len(),
    ensures
        r@ == s@.subrange(lo as int, hi as int),
{
    let mut out = String::new();
    let mut i: usize = lo;
    while i < hi
        invariant
            lo <= i <= hi <= s@.len(),
            out@ == s@.subrange(lo as int, i as int),
        decreases hi - i,
    {
        proof {
            assert(s@.subrange(lo as int, i as int + 1) =~= s@.subrange(lo as int, i as int).push(
                s@[i as int],
            ));
        }
        out.push(s[i]);
        i += 1;
    }
    out
}

/// Whether the characters of `p` appear in `s` starting at position `at`.
#[verifier::loop_isolation(false)]
pub fn starts_with_at(s: &Vec<char>, at: usize, p: &str) -> (r: bool)
    requires
        at <= s@.len(),
    ensures
        r == p@.is_prefix_of(s@.skip(at as int)),
{
    let n = p.unicode_len();
    if n > s.len() - at {
        return false;
    }
    let mut i: usize = 0;
    while i < n
        invariant
            n == p@.len(),
            at + n <= s@.len(),
            i <= n,
            forall|j: int| 0 <= j < i ==> p@[j] == s@[at + j],
        decreases n - i,
    {
        if p.get_char(i) != s[at + i] {
            return false;
        }
        i += 1;
    }
    proof {
        assert(p@.is_prefix_of(s@.skip(at as int))) by {
            assert(p@ =~= s@.skip(at as int).subrange(0, p@.len() as int));
        }
    }
    true
}

/// Whether a character is a decimal digit.
pub open spec fn is_digit(c: char) -> bool {
    48 <= (c as u32) <= 57
}

/// The number that a sequence of digits denotes.
pub open spec fn digits_val(s: Seq<char>) -> int
    decreases s.len(),
{
    if s.len() == 0 {
        0
    } else {
        digits_val(s.drop_last()) * 10 + ((s.last() as u32) as int - 48)
    }
}

/// A digit string denotes a number at least zero.
pub proof fn lemma_digits_val_nonneg(s: Seq<char>)
    requires
        forall|i: int| 0 <= i < s.len() ==> is_digit(#[trigger] s[i]),
    ensures
        digits_val(s) >= 0,
    decreases s.len(),
{
    if s.len() > 0 {
        lemma_digits_val_nonneg(s.drop_last());
    }
}

/// A prefix of a digit string denotes no more than the whole.
pub proof fn lemma_digits_val_prefix(s: Seq<char>, i: int)
    requires
        0 <= i <= s.len(),
        forall|j: int| 0 <= j < s.len() ==> is_digit(#[trigger] s[j]),
    ensures
        digits_val(s.take(i)) <= digits_val(s),
    decreases s.len() - i,
{
    if i < s.len() {
        assert(s.take(i + 1).drop_last() =~= s.take(i));
        assert(s.take(i + 1).last() == s[i]);
        lemma_digits_val_nonneg(s.take(i));
        lemma_digits_val_prefix(s, i + 1);
    } else {
        assert(s.take(i) =~= s);
    }
}

/// The digits of a number text: the text after its optional leading plus
/// sign.
pub open spec fn sign_stripped(s: Seq<char>) -> Seq<char> {
    if s.len() > 0 && s[0] == '+' {
        s.drop_first()
    } else {
        s
    }
}

/// A text with a character that is not a digit, after the optional sign,
/// denotes no number.
pub proof fn lemma_parse_u32_none_nondigit(s: Seq<char>, k: int)
    requires
        0 <= k < sign_stripped(s).len(),
        !is_digit(sign_stripped(s)[k]),
    ensures
        parse_u32_spec(s) is None,
{
}

/// A text whose digits already exceed the range at some prefix denotes no
/// number.
pub proof fn lemma_parse_u32_none_big(s: Seq<char>, k: int)
    requires
        0 <= k <= sign_stripped(s).len(),
        digits_val(sign_stripped(s).take(k)) > u32::MAX as int,
    ensures
        parse_u32_spec(s) is None,
{
    if parse_u32_spec(s) is Some {
        lemma_digits_val_prefix(sign_stripped(s), k);
        assert(false);
    }
}

/// What a text denotes as an unsigned 32-bit number: an optional leading
/// plus sign, then at least one digit, all digits, in range.
pub open spec fn parse_u32_spec(s: Seq<char>) -> Option<u32> {
    if sign_stripped(s).len() > 0 && (forall|i: int|
        0 <= i < sign_stripped(s).len() ==> is_digit(#[trigger] sign_stripped(s)[i]))
        && digits_val(sign_stripped(s)) <= u32::MAX as int {
        Some(digits_val(sign_stripped(s)) as u32)
    } else {
        None
    }
}

/// Parses the characters of a range of `s` as an unsigned 32-bit number.
#[verifier::loop_isolation(false)]
pub fn parse_u32_range(s: &Vec<char>, lo: usize, hi: usize) -> (r: Option<u32>)
    requires
        lo <= hi <= s@.len(),
    ensures
        r == parse_u32_spec(s@.subrange(lo as int, hi as int)),
{
    let ghost whole = s@.subrange(lo as int, hi as int);
    let mut start = lo;
    if start < hi && s[start] == '+' {
        start += 1;
    }
    let ghost body = sign_stripped(whole);
    proof {
        if whole.len() > 0 && whole[0] == '+' {
            assert(body =~= s@.subrange(start as int, hi as int));
        } else {
            assert(body =~= s@.subrange(start as int, hi as int));
        }
    }
    if start == hi {
        return None;
    }
    let mut val: u32 = 0;
    let mut i = start;
    while i < hi
        invariant
            start <= i <= hi,
            forall|j: int| 0 <= j < i - start ==> is_digit(#[trigger] body[j]),
            val as int == digits_val(body.take(i - start)),
        decreases hi - i,
    {
        let c = s[i];
        let u = c as u32;
        proof {
            assert(body[i - start] == c);
            assert(body.take(i - start + 1).drop_last() =~= body.take(i - start));
            assert(body.take(i - start + 1).last() == c);
        }
        if u < 48 || u > 57 {
            proof {
                lemma_parse_u32_none_nondigit(whole, i - start);
            }
            return None;
        }
        let d = u - 48;
        let wide: u64 = (val as u64) * 10 + (d as u64);
        if wide > u32::MAX as u64 {
            // Even if every later character is a digit, the value can only
            // grow; the range is already exceeded.
            proof {
                assert(digits_val(body.take(i - start + 1)) == wide as int);
                lemma_parse_u32_none_big(whole, i - start + 1);
            }
            return None;
        }
        val = wide as u32;
        i += 1;
    }
    proof {
        assert(body.take(hi - start) =~= body);
        lemma_digits_val_nonneg(body);
    }
    Some(val)
}

/// A piece of line text with a trailing carriage return stripped.
pub open spec fn strip_cr(l: Seq<char>) -> Seq<char> {
    if l.len() > 0 && l.last() == '\r' {
        l.drop_last()
    } else {
        l
    }
}

/// Splitting text into lines, walked left to right: `cur` is the line being
/// read and `acc` the lines already complete. A final line without a
/// newline counts when non-empty; a carriage return before a newline is
/// stripped.
pub open spec fn split_lines_rec(s: Seq<char>, cur: Seq<char>, acc: Seq<Seq<char>>) -> Seq<
    Seq<char>,
>
    decreases s.len(),
{
    if s.len() == 0 {
        if cur.len() > 0 {
            acc.push(cur)
        } else {
            acc
        }
    } else if s[0] == '\n' {
        split_lines_rec(s.drop_first(), Seq::empty(), acc.push(strip_cr(cur)))
    } else {
        split_lines_rec(s.drop_first(), cur.push(s[0]), acc)
    }
}

/// The lines of a text.
pub open spec fn lines_of(s: Seq<char>) -> Seq<Seq<char>> {
    split_lines_rec(s, Seq::empty(), Seq::empty())
}

/// Splits a text into its lines.
#[verifier::loop_isolation(false)]
pub fn split_lines(s: &str) -> (r: Vec<String>)
    ensures
        crate::dispatch::line_views(r@) == lines_of(s@),
{
    let v = chars_of(s);
    let mut out: Vec<String> = Vec::new();
    let mut start: usize = 0;
    let mut i: usize = 0;
    proof {
        assert(v@.skip(0) =~= s@);
        assert(v@.subrange(0, 0) =~= Seq::<char>::empty());
        assert(crate::dispatch::line_views(out@) =~= Seq::<Seq<char>>::empty());
    }
    while i < v.len()
        invariant
            start <= i <= v@.len(),
            split_lines_rec(
                v@.skip(i as int),
                v@.subrange(start as int, i as int),
                crate::dispatch::line_views(out@),
            ) == lines_of(s@),
        decreases v@.len() - i,
    {
        proof {
            assert(v@.skip(i as int)[0] == v@[i as int]);
            assert(v@.skip(i as int).drop_first() =~= v@.skip(i as int + 1));
        }
        if v[i] == '\n' {
            let end = if i > start && v[i - 1] == '\r' {
                i - 1
            } else {
                i
            };
            proof {
                assert(v@.subrange(start as int, end as int) =~= strip_cr(
                    v@.subrange(start as int, i as int),
                ));
            }
            let line = string_from_range(&v, start, end);
            let ghost pre_out = out@;
            out.push(line);
            proof {
                assert(out@.drop_last() =~= pre_out);
                assert(crate::dispatch::line_views(out@) =~= crate::dispatch::line_views(
                    pre_out,
                ).push(strip_cr(v@.subrange(start as int, i as int))));
            }
            start = i + 1;
            proof {
                assert(v@.subrange(start as int, i as int + 1) =~= Seq::<char>::empty());
            }
        } else {
            proof {
                assert(v@.subrange(start as int, i as int + 1) =~= v@.subrange(
                    start as int,
                    i as int,
                ).push(v@[i as int]));
            }
        }
        i += 1;
    }
    if start < v.len() {
        proof {
            assert(v@.skip(v@.len() as int) =~= Seq::<char>::empty());
            assert(v@.subrange(start as int, v@.len() as int).len() > 0);
        }
        let line = string_from_range(&v, start, v.len());
        let ghost pre_out = out@;
        out.push(line);
        proof {
            assert(out@.drop_last() =~= pre_out);
            assert(crate::dispatch::line_views(out@) =~= crate::dispatch::line_views(
                pre_out,
            ).push(v@.subrange(start as int, v@.len() as int)));
        }
    } else {
        proof {
            assert(v@.skip(v@.len() as int) =~= Seq::<char>::empty());
            assert(v@.subrange(start as int, v@.len() as int).len() == 0);
        }
    }
    out
}

/// Whether a character separates tokens.
pub open spec fn is_ws(c: char) -> bool {
    c == ' ' || c == '\t' || c == '\n' || c == '\r'
}

/// Splitting a text into whitespace-separated tokens, walked left to right.
pub open spec fn split_ws_rec(s: Seq<char>, cur: Seq<char>, acc: Seq<Seq<char>>) -> Seq<
    Seq<char>,
>
    decreases s.len(),
{
    if s.len() == 0 {
        if cur.len() > 0 {
            acc.push(cur)
        } else {
            acc
        }
    } else if is_ws(s[0]) {
        split_ws_rec(
            s.drop_first(),
            Seq::empty(),
            if cur.len() > 0 {
                acc.push(cur)
            } else {
                acc
            },
        )
    } else {
        split_ws_rec(s.drop_first(), cur.push(s[0]), acc)
    }
}

/// The whitespace-separated tokens of a text.
pub open spec fn split_ws(s: Seq<char>) -> Seq<Seq<char>> {
    split_ws_rec(s, Seq::empty(), Seq::empty())
}

/// The texts under a list of ranges into `s`.
pub open spec fn range_views(s: Seq<char>, r: Seq<(usize, usize)>) -> Seq<Seq<char>> {
    Seq::new(r.len(), |k: int| s.subrange(r[k].0 as int, r[k].1 as int))
}

/// The whitespace-separated tokens of a range of `s`, as ranges into `s`.
#[verifier::loop_isolation(false)]
pub fn split_ws_ranges(s: &Vec<char>, lo: usize, hi: usize) -> (r: Vec<(usize, usize)>)
    requires
        lo <= hi <= s@.len(),
    ensures
        forall|k: int| 0 <= k < r@.len() ==> lo <= (#[trigger] r@[k]).0 <= r@[k].1 <= hi,
        range_views(s@, r@) == split_ws(s@.subrange(lo as int, hi as int)),
{
    let ghost whole = s@.subrange(lo as int, hi as int);
    let mut out: Vec<(usize, usize)> = Vec::new();
    let mut tok_start: usize = lo;
    let mut in_tok = false;
    let mut i: usize = lo;
    proof {
        assert(whole.skip(0) =~= whole);
        assert(range_views(s@, out@) =~= Seq::<Seq<char>>::empty());
        assert(s@.subrange(lo as int, lo as int) =~= Seq::<char>::empty());
    }
    while i < hi
        invariant
            lo <= i <= hi,
            in_tok ==> lo <= tok_start <= i,
            !in_tok ==> tok_start == i,
            forall|k: int| 0 <= k < out@.len() ==> lo <= (#[trigger] out@[k]).0 <= out@[k].1
                <= hi,
            split_ws_rec(
                whole.skip(i - lo),
                s@.subrange(tok_start as int, i as int),
                range_views(s@, out@),
            ) == split_ws(whole),
            in_tok <==> tok_start < i,
        decreases hi - i,
    {
        proof {
            assert(whole.skip(i - lo)[0] == s@[i as int]);
            assert(whole.skip(i - lo).drop_first() =~= whole.skip(i - lo + 1));
        }
        let c = s[i];
        if c == ' ' || c == '\t' || c == '\n' || c == '\r' {
            if in_tok {
                let ghost pre_out = out@;
                out.push((tok_start, i));
                proof {
                    assert(out@.drop_last() =~= pre_out);
                    assert(range_views(s@, out@) =~= range_views(s@, pre_out).push(
                        s@.subrange(tok_start as int, i as int),
                    ));
                }
            }
            in_tok = false;
            tok_start = i + 1;
            proof {
                assert(s@.subrange(i as int + 1, i as int + 1) =~= Seq::<char>::empty());
            }
        } else {
            if !in_tok {
                in_tok = true;
                tok_start = i;
            }
            proof {
                assert(s@.subrange(tok_start as int, i as int + 1) =~= s@.subrange(
                    tok_start as int,
                    i as int,
                ).push(s@[i as int]));
            }
        }
        i += 1;
    }
    proof {
        assert(whole.skip(hi - lo) =~= Seq::<char>::empty());
    }
    if in_tok {
        let ghost pre_out = out@;
        out.push((tok_start, hi));
        proof {
            assert(out@.drop_last() =~= pre_out);
            assert(range_views(s@, out@) =~= range_views(s@, pre_out).push(
                s@.subrange(tok_start as int, hi as int),
            ));
        }
    }
    out
}

/// A text with every leading repetition of a prefix removed.
pub open spec fn trim_prefix_all(s: Seq<char>, p: Seq<char>) -> Seq<char>
    decreases s.len(),
{
    if p.len() > 0 && p.is_prefix_of(s) {
        trim_prefix_all(s.skip(p.len() as int), p)
    } else {
        s
    }
}

/// A text with every leading occurrence of a character removed.
pub open spec fn trim_char_all(s: Seq<char>, c: char) -> Seq<char>
    decreases s.len(),
{
    if s.len() > 0 && s[0] == c {
        trim_char_all(s.drop_first(), c)
    } else {
        s
    }
}

/// Advances past every leading repetition of `p`, from position `from`.
#[verifier::loop_isolation(false)]
fn trim_prefix_all_from(s: &Vec<char>, from: usize, p: &str) -> (r: usize)
    requires
        from <= s@.len(),
        p@.len() > 0,
    ensures
        from <= r <= s@.len(),
        s@.skip(r as int) == trim_prefix_all(s@.skip(from as int), p@),
{
    let plen = p.unicode_len();
    let n = s.len();
    let mut cur = from;
    while starts_with_at(s, cur, p)
        invariant
            from <= cur <= s@.len(),
            trim_prefix_all(s@.skip(cur as int), p@) == trim_prefix_all(
                s@.skip(from as int),
                p@,
            ),
        decreases s@.len() - cur,
    {
        proof {
            assert(s@.skip(cur as int).skip(plen as int) =~= s@.skip(cur as int + plen as int));
        }
        cur += plen;
    }
    cur
}

/// Advances past every leading occurrence of `c`, within a range.
#[verifier::loop_isolation(false)]
fn trim_char_all_from(s: &Vec<char>, lo: usize, hi: usize, c: char) -> (r: usize)
    requires
        lo <= hi <= s@.len(),
    ensures
        lo <= r <= hi,
        s@.subrange(r as int, hi as int) == trim_char_all(
            s@.subrange(lo as int, hi as int),
            c,
        ),
{
    let mut cur = lo;
    while cur < hi && s[cur] == c
        invariant
            lo <= cur <= hi,
            trim_char_all(s@.subrange(cur as int, hi as int), c) == trim_char_all(
                s@.subrange(lo as int, hi as int),
                c,
            ),
        decreases hi - cur,
    {
        proof {
            assert(s@.subrange(cur as int, hi as int)[0] == s@[cur as int]);
            assert(s@.subrange(cur as int, hi as int).drop_first() =~= s@.subrange(
                cur as int + 1,
                hi as int,
            ));
        }
        cur += 1;
    }
    proof {
        if cur < hi {
            assert(s@.subrange(cur as int, hi as int)[0] == s@[cur as int]);
        }
    }
    cur
}

/// The position of the first occurrence of a character, or the length where
/// there is none.
pub open spec fn idx_of(s: Seq<char>, c: char) -> int
    decreases s.len(),
{
    if s.len() == 0 {
        0
    } else if s[0] == c {
        0
    } else {
        1 + idx_of(s.drop_first(), c)
    }
}

/// The first occurrence is within bounds, holds the character, and nothing
/// earlier does.
pub proof fn lemma_idx_of(s: Seq<char>, c: char)
    ensures
        0 <= idx_of(s, c) <= s.len(),
        idx_of(s, c) < s.len() ==> s[idx_of(s, c)] == c,
        forall|j: int| 0 <= j < idx_of(s, c) ==> s[j] != c,
    decreases s.len(),
{
    if s.len() > 0 && s[0] != c {
        lemma_idx_of(s.drop_first(), c);
        assert forall|j: int| 0 <= j < idx_of(s, c) implies s[j] != c by {
            if j > 0 {
                assert(s.drop_first()[j - 1] == s[j]);
            }
        }
    }
}

/// What a line-range token denotes: a start and a count separated by a
/// comma, or a bare start with a count of one.
pub open spec fn parse_line_range_spec(s: Seq<char>) -> Option<(u32, u32)> {
    if idx_of(s, ',') < s.len() {
        match (
            parse_u32_spec(s.take(idx_of(s, ','))),
            parse_u32_spec(s.skip(idx_of(s, ',') + 1)),
        ) {
            (Some(a), Some(b)) => Some((a, b)),
            _ => None,
        }
    } else {
        match parse_u32_spec(s) {
            Some(a) => Some((a, 1u32)),
            None => None,
        }
    }
}

/// Parses a line-range token within a range of `s`.
#[verifier::loop_isolation(false)]
fn parse_line_range_in(s: &Vec<char>, lo: usize, hi: usize) -> (r: Option<(u32, u32)>)
    requires
        lo <= hi <= s@.len(),
    ensures
        r == parse_line_range_spec(s@.subrange(lo as int, hi as int)),
{
    let ghost whole = s@.subrange(lo as int, hi as int);
    proof {
        lemma_idx_of(whole, ',');
    }
    let mut i = lo;
    while i < hi && s[i] != ','
        invariant
            lo <= i <= hi,
            forall|j: int| 0 <= j < i - lo ==> whole[j] != ',',
        decreases hi - i,
    {
        proof {
            assert(whole[i - lo] == s@[i as int]);
        }
        i += 1;
    }
    if i < hi {
        proof {
            assert(whole[i - lo] == s@[i as int]);
            assert(idx_of(whole, ',') == i - lo);
        }
        let a = parse_u32_range(s, lo, i);
        let b = parse_u32_range(s, i + 1, hi);
        proof {
            assert(s@.subrange(lo as int, i as int) =~= whole.take(i - lo));
            assert(s@.subrange(i as int + 1, hi as int) =~= whole.skip(i - lo + 1));
        }
        match (a, b) {
            (Some(a), Some(b)) => Some((a, b)),
            _ => None,
        }
    } else {
        proof {
            assert(idx_of(whole, ',') == whole.len()) by {
                if idx_of(whole, ',') < whole.len() {
                    assert(whole[idx_of(whole, ',')] == ',');
                }
            }
        }
        match parse_u32_range(s, lo, hi) {
            Some(a) => Some((a, 1u32)),
            None => None,
        }
    }
}

/// Parses one line-range token, like the `1,5` of a hunk header.
pub fn parse_line_range(range: &str) -> (r: Option<(u32, u32)>)
    ensures
        r == parse_line_range_spec(range@),
{
    let v = chars_of(range);
    let r = parse_line_range_in(&v, 0, v.len());
    proof {
        assert(v@.subrange(0, v@.len() as int) =~= range@);
    }
    r
}

/// What a hunk header denotes: after the `@@ ` lead-in, two
/// whitespace-separated tokens, the old range after its minus signs and the
/// new range after its plus signs.
pub open spec fn parse_hunk_header_spec(s: Seq<char>) -> Option<(u32, u32, u32, u32)> {
    if split_ws(trim_prefix_all(s, "@@ "@)).len() < 2 {
        None
    } else {
        match (
            parse_line_range_spec(
                trim_char_all(split_ws(trim_prefix_all(s, "@@ "@))[0], '-'),
            ),
            parse_line_range_spec(
                trim_char_all(split_ws(trim_prefix_all(s, "@@ "@))[1], '+'),
            ),
        ) {
            (Some(a), Some(b)) => Some((a.0, a.1, b.0, b.1)),
            _ => None,
        }
    }
}

/// Parses a hunk header like `@@ -1,5 +1,7 @@` into the old and new start
/// and count.
pub fn parse_hunk_header(header: &str) -> (r: Option<(u32, u32, u32, u32)>)
    ensures
        r == parse_hunk_header_spec(header@),
{
    let v = chars_of(header);
    proof {
        reveal_strlit("@@ ");
        assert(v@.skip(0) =~= header@);
    }
    let t0 = trim_prefix_all_from(&v, 0, "@@ ");
    let toks = split_ws_ranges(&v, t0, v.len());
    if toks.len() < 2 {
        return None;
    }
    let (a_lo, a_hi) = (toks[0].0, toks[0].1);
    let (b_lo, b_hi) = (toks[1].0, toks[1].1);
    proof {
        assert(range_views(v@, toks@)[0] == v@.subrange(a_lo as int, a_hi as int));
        assert(range_views(v@, toks@)[1] == v@.subrange(b_lo as int, b_hi as int));
        assert(v@.skip(t0 as int) =~= v@.subrange(t0 as int, v@.len() as int));
    }
    let a_start = trim_char_all_from(&v, a_lo, a_hi, '-');
    let b_start = trim_char_all_from(&v, b_lo, b_hi, '+');
    let a = parse_line_range_in(&v, a_start, a_hi);
    let b = parse_line_range_in(&v, b_start, b_hi);
    match (a, b) {
        (Some(a), Some(b)) => Some((a.0, a.1, b.0, b.1)),
        _ => None,
    }
}

/// One line of a hunk: context, addition or deletion, with its position in
/// the old and new file where it has one.
pub struct DiffLine {
    pub line_type: String,
    pub old_line: Option<u32>,
    pub new_line: Option<u32>,
    pub content: String,
}

/// The model of a hunk line.
pub struct LineV {
    pub line_type: Seq<char>,
    pub old_line: Option<u32>,
    pub new_line: Option<u32>,
    pub content: Seq<char>,
}

impl View for DiffLine {
    type V = LineV;

    open spec fn view(&self) -> LineV {
        LineV {
            line_type: self.line_type@,
            old_line: self.old_line,
            new_line: self.new_line,
            content: self.content@,
        }
    }
}

/// One hunk of a unified diff.
pub struct DiffHunk {
    pub old_start: u32,
    pub old_count: u32,
    pub new_start: u32,
    pub new_count: u32,
    pub header: String,
    pub lines: Vec<DiffLine>,
}

/// The model of a hunk.
pub struct HunkV {
    pub old_start: u32,
    pub old_count: u32,
    pub new_start: u32,
    pub new_count: u32,
    pub header: Seq<char>,
    pub lines: Seq<LineV>,
}

/// The models of a list of hunk lines.
pub open spec fn dline_views(s: Seq<DiffLine>) -> Seq<LineV> {
    Seq::new(s.len(), |i: int| s[i]@)
}

impl View for DiffHunk {
    type V = HunkV;

    open spec fn view(&self) -> HunkV {
        HunkV {
            old_start: self.old_start,
            old_count: self.old_count,
            new_start: self.new_start,
            new_count: self.new_count,
            header: self.header@,
            lines: dline_views(self.lines@),
        }
    }
}

/// The changes of one file against the base.
pub struct FileDiff {
    pub path: String,
    pub old_path: Option<String>,
    pub status: String,
    pub insertions: u32,
    pub deletions: u32,
    pub hunks: Vec<DiffHunk>,
}

/// The model of a file diff.
pub struct FileDiffV {
    pub path: Seq<char>,
    pub old_path: Option<Seq<char>>,
    pub status: Seq<char>,
    pub insertions: u32,
    pub deletions: u32,
    pub hunks: Seq<HunkV>,
}

/// The models of a list of hunks.
pub open spec fn hunk_views(s: Seq<DiffHunk>) -> Seq<HunkV> {
    Seq::new(s.len(), |i: int| s[i]@)
}

impl View for FileDiff {
    type V = FileDiffV;

    open spec fn view(&self) -> FileDiffV {
        FileDiffV {
            path: self.path@,
            old_path: match self.old_path {
                Some(p) => Some(p@),
                None => None,
            },
            status: self.status@,
            insertions: self.insertions,
            deletions: self.deletions,
            hunks: hunk_views(self.hunks@),
        }
    }
}

/// A summary of all changed files.
pub struct DiffSummary {
    pub files: Vec<FileDiff>,
    pub total_insertions: u32,
    pub total_deletions: u32,
    pub total_files: u32,
}

/// The walking state of the unified-diff reader.
pub struct UdState {
    pub hunks: Seq<HunkV>,
    pub cur: Option<HunkV>,
    pub insertions: u32,
    pub deletions: u32,
    pub old_line: u32,
    pub new_line: u32,
    pub status: Seq<char>,
}

/// The state before any line is read.
pub open spec fn ud_init() -> UdState {
    UdState {
        hunks: Seq::empty(),
        cur: None,
        insertions: 0,
        deletions: 0,
        old_line: 0,
        new_line: 0,
        status: "modified"@,
    }
}

/// The hunks with the open hunk, if any, flushed on the right.
pub open spec fn ud_flushed(st: UdState) -> Seq<HunkV> {
    match st.cur {
        Some(h) => st.hunks.push(h),
        None => st.hunks,
    }
}

/// How one line of a unified diff advances the reader: file-mode lines set
/// the status, a hunk header closes the open hunk and opens a new one, and
/// inside a hunk an addition, deletion or context line is recorded with its
/// position; anything else is passed over. Line counters saturate.
pub open spec fn ud_step(st: UdState, line: Seq<char>) -> UdState {
    if "new file mode"@.is_prefix_of(line) {
        UdState { status: "added"@, ..st }
    } else if "deleted file mode"@.is_prefix_of(line) {
        UdState { status: "deleted"@, ..st }
    } else if "@@"@.is_prefix_of(line) {
        match parse_hunk_header_spec(line) {
            Some(h) => UdState {
                hunks: ud_flushed(st),
                cur: Some(
                    HunkV {
                        old_start: h.0,
                        old_count: h.1,
                        new_start: h.2,
                        new_count: h.3,
                        header: line,
                        lines: Seq::empty(),
                    },
                ),
                old_line: h.0,
                new_line: h.2,
                ..st
            },
            None => UdState { hunks: ud_flushed(st), cur: None, ..st },
        }
    } else {
        match st.cur {
            None => st,
            Some(h) => {
                if line.len() > 0 && line[0] == '+' && !"+++"@.is_prefix_of(line) {
                    UdState {
                        cur: Some(
                            HunkV {
                                lines: h.lines.push(
                                    LineV {
                                        line_type: "add"@,
                                        old_line: None,
                                        new_line: Some(st.new_line),
                                        content: line.drop_first(),
                                    },
                                ),
                                ..h
                            },
                        ),
                        insertions: st.insertions.saturating_add(1),
                        new_line: st.new_line.saturating_add(1),
                        ..st
                    }
                } else if line.len() > 0 && line[0] == '-' && !"---"@.is_prefix_of(line) {
                    UdState {
                        cur: Some(
                            HunkV {
                                lines: h.lines.push(
                                    LineV {
                                        line_type: "delete"@,
                                        old_line: Some(st.old_line),
                                        new_line: None,
                                        content: line.drop_first(),
                                    },
                                ),
                                ..h
                            },
                        ),
                        deletions: st.deletions.saturating_add(1),
                        old_line: st.old_line.saturating_add(1),
                        ..st
                    }
                } else if line.len() == 0 || line[0] == ' ' {
                    UdState {
                        cur: Some(
                            HunkV {
                                lines: h.lines.push(
                                    LineV {
                                        line_type: "context"@,
                                        old_line: Some(st.old_line),
                                        new_line: Some(st.new_line),
                                        content: if line.len() == 0 {
                                            Seq::empty()
                                        } else {
                                            line.drop_first()
                                        },
                                    },
                                ),
                                ..h
                            },
                        ),
                        old_line: st.old_line.saturating_add(1),
                        new_line: st.new_line.saturating_add(1),
                        ..st
                    }
                } else {
                    st
                }
            },
        }
    }
}

/// The state after reading a sequence of lines in order.
pub open spec fn ud_run(lines: Seq<Seq<char>>) -> UdState
    decreases lines,
{
    if lines.len() == 0 {
        ud_init()
    } else {
        ud_step(ud_run(lines.drop_last()), lines.last())
    }
}

/// What a unified diff denotes for one file: the recorded hunks with the
/// last one flushed, the counted insertions and deletions, and the status
/// read from the file-mode lines.
pub open spec fn parse_unified_diff_spec(diff: Seq<char>, path: Seq<char>) -> FileDiffV {
    FileDiffV {
        path: path,
        old_path: None,
        status: ud_run(lines_of(diff)).status,
        insertions: ud_run(lines_of(diff)).insertions,
        deletions: ud_run(lines_of(diff)).deletions,
        hunks: ud_flushed(ud_run(lines_of(diff))),
    }
}

/// Parses a unified diff into structured data for one file.
#[verifier::loop_isolation(false)]
pub fn parse_unified_diff(diff: &str, file_path: &str) -> (r: Result<FileDiff, String>)
    ensures
        r is Ok,
        r matches Ok(fd) ==> fd@ == parse_unified_diff_spec(diff@, file_path@),
{
    let lines = split_lines(diff);
    let ghost lv = crate::dispatch::line_views(lines@);
    proof {
        assert(lv.take(0) =~= Seq::<Seq<char>>::empty());
    }
    let mut hunks: Vec<DiffHunk> = Vec::new();
    let mut cur: Option<DiffHunk> = None;
    let mut insertions: u32 = 0;
    let mut deletions: u32 = 0;
    let mut old_line: u32 = 0;
    let mut new_line: u32 = 0;
    let mut status = String::from_str("modified");
    proof {
        reveal_strlit("modified");
    }
    let mut i: usize = 0;
    while i < lines.len()
        invariant
            i <= lv.len(),
            hunk_views(hunks@) == ud_run(lv.take(i as int)).hunks,
            match cur {
                Some(h) => ud_run(lv.take(i as int)).cur == Some(h@),
                None => ud_run(lv.take(i as int)).cur is None,
            },
            insertions == ud_run(lv.take(i as int)).insertions,
            deletions == ud_run(lv.take(i as int)).deletions,
            old_line == ud_run(lv.take(i as int)).old_line,
            new_line == ud_run(lv.take(i as int)).new_line,
            status@ == ud_run(lv.take(i as int)).status,
        decreases lv.len() - i,
    {
        let ghost st = ud_run(lv.take(i as int));
        proof {
            assert(lv.take(i as int + 1).drop_last() =~= lv.take(i as int));
            assert(lv.take(i as int + 1).last() == lv[i as int]);
        }
        let line = &lines[i];
        let v = chars_of(line.as_str());
        proof {
            assert(v@.skip(0) =~= lv[i as int]);
        }
        if starts_with_at(&v, 0, "new file mode") {
            status = String::from_str("added");
            proof {
                reveal_strlit("added");
            }
        } else if starts_with_at(&v, 0, "deleted file mode") {
            status = String::from_str("deleted");
            proof {
                reveal_strlit("deleted");
            }
        } else if starts_with_at(&v, 0, "@@") {
            let prev = cur;
            cur = None;
            match prev {
                Some(h) => {
                    let ghost pre_hunks = hunks@;
                    hunks.push(h);
                    proof {
                        assert(hunks@.drop_last() =~= pre_hunks);
                        assert(hunk_views(hunks@) =~= hunk_views(pre_hunks).push(
                            hunks@.last()@,
                        ));
                    }
                },
                None => {},
            }
            match parse_hunk_header(line.as_str()) {
                Some((os, oc, ns, nc)) => {
                    let header = line.clone();
                    cur = Some(
                        DiffHunk {
                            old_start: os,
                            old_count: oc,
                            new_start: ns,
                            new_count: nc,
                            header,
                            lines: Vec::new(),
                        },
                    );
                    old_line = os;
                    new_line = ns;
                    proof {
                        assert(dline_views(Seq::<DiffLine>::empty()) =~= Seq::<
                            LineV,
                        >::empty());
                    }
                },
                None => {},
            }
        } else {
            let is_plus = v.len() > 0 && v[0] == '+' && !starts_with_at(&v, 0, "+++");
            let is_minus = v.len() > 0 && v[0] == '-' && !starts_with_at(&v, 0, "---");
            let is_ctx = v.len() == 0 || v[0] == ' ';
            cur = match cur {
                Some(mut h) => {
                    if is_plus {
                        let content = string_from_range(&v, 1, v.len());
                        proof {
                            assert(v@.subrange(1, v@.len() as int) =~= lv[
                                i as int
                            ].drop_first());
                        }
                        let ghost pre_lines = h.lines@;
                        h.lines.push(
                            DiffLine {
                                line_type: String::from_str("add"),
                                old_line: None,
                                new_line: Some(new_line),
                                content,
                            },
                        );
                        proof {
                            reveal_strlit("add");
                            assert(h.lines@.drop_last() =~= pre_lines);
                            assert(dline_views(h.lines@) =~= dline_views(pre_lines).push(
                                h.lines@.last()@,
                            ));
                        }
                        insertions = insertions.saturating_add(1);
                        new_line = new_line.saturating_add(1);
                        Some(h)
                    } else if is_minus {
                        let content = string_from_range(&v, 1, v.len());
                        proof {
                            assert(v@.subrange(1, v@.len() as int) =~= lv[
                                i as int
                            ].drop_first());
                        }
                        let ghost pre_lines = h.lines@;
                        h.lines.push(
                            DiffLine {
                                line_type: String::from_str("delete"),
                                old_line: Some(old_line),
                                new_line: None,
                                content,
                            },
                        );
                        proof {
                            reveal_strlit("delete");
                            assert(h.lines@.drop_last() =~= pre_lines);
                            assert(dline_views(h.lines@) =~= dline_views(pre_lines).push(
                                h.lines@.last()@,
                            ));
                        }
                        deletions = deletions.saturating_add(1);
                        old_line = old_line.saturating_add(1);
                        Some(h)
                    } else if is_ctx {
                        let content = if v.len() == 0 {
                            String::new()
                        } else {
                            string_from_range(&v, 1, v.len())
                        };
                        proof {
                            if lv[i as int].len() > 0 {
                                assert(v@.subrange(1, v@.len() as int) =~= lv[
                                    i as int
                                ].drop_first());
                            }
                        }
                        let ghost pre_lines = h.lines@;
                        h.lines.push(
                            DiffLine {
                                line_type: String::from_str("context"),
                                old_line: Some(old_line),
                                new_line: Some(new_line),
                                content,
                            },
                        );
                        proof {
                            reveal_strlit("context");
                            assert(h.lines@.drop_last() =~= pre_lines);
                            assert(dline_views(h.lines@) =~= dline_views(pre_lines).push(
                                h.lines@.last()@,
                            ));
                        }
                        old_line = old_line.saturating_add(1);
                        new_line = new_line.saturating_add(1);
                        Some(h)
                    } else {
                        Some(h)
                    }
                },
                None => None,
            };
        }
        i += 1;
    }
    proof {
        assert(lv.take(lv.len() as int) =~= lv);
    }
    let flushed = match cur {
        Some(h) => {
            let ghost pre_hunks = hunks@;
            hunks.push(h);
            proof {
                assert(hunks@.drop_last() =~= pre_hunks);
                assert(hunk_views(hunks@) =~= hunk_views(pre_hunks).push(hunks@.last()@));
            }
            hunks
        },
        None => hunks,
    };
    Ok(
        FileDiff {
            path: file_path.to_owned(),
            old_path: None,
            status,
            insertions,
            deletions,
            hunks: flushed,
        },
    )
}

/// Splitting on a separator, keeping empty pieces, walked left to right.
pub open spec fn split_char_rec(
    s: Seq<char>,
    c: char,
    cur: Seq<char>,
    acc: Seq<Seq<char>>,
) -> Seq<Seq<char>>
    decreases s.len(),
{
    if s.len() == 0 {
        acc.push(cur)
    } else if s[0] == c {
        split_char_rec(s.drop_first(), c, Seq::empty(), acc.push(cur))
    } else {
        split_char_rec(s.drop_first(), c, cur.push(s[0]), acc)
    }
}

/// The pieces of a text around a separator character; empty pieces count.
pub open spec fn split_char(s: Seq<char>, c: char) -> Seq<Seq<char>> {
    split_char_rec(s, c, Seq::empty(), Seq::empty())
}

/// The pieces of a range of `s` around a separator, as ranges into `s`.
#[verifier::loop_isolation(false)]
fn split_char_ranges(s: &Vec<char>, lo: usize, hi: usize, c: char) -> (r: Vec<(usize, usize)>)
    requires
        lo <= hi <= s@.len(),
    ensures
        forall|k: int| 0 <= k < r@.len() ==> lo <= (#[trigger] r@[k]).0 <= r@[k].1 <= hi,
        range_views(s@, r@) == split_char(s@.subrange(lo as int, hi as int), c),
{
    let ghost whole = s@.subrange(lo as int, hi as int);
    let mut out: Vec<(usize, usize)> = Vec::new();
    let mut piece_start: usize = lo;
    let mut i: usize = lo;
    proof {
        assert(whole.skip(0) =~= whole);
        assert(range_views(s@, out@) =~= Seq::<Seq<char>>::empty());
        assert(s@.subrange(lo as int, lo as int) =~= Seq::<char>::empty());
    }
    while i < hi
        invariant
            lo <= piece_start <= i <= hi,
            forall|k: int| 0 <= k < out@.len() ==> lo <= (#[trigger] out@[k]).0 <= out@[k].1
                <= hi,
            split_char_rec(
                whole.skip(i - lo),
                c,
                s@.subrange(piece_start as int, i as int),
                range_views(s@, out@),
            ) == split_char(whole, c),
        decreases hi - i,
    {
        proof {
            assert(whole.skip(i - lo)[0] == s@[i as int]);
            assert(whole.skip(i - lo).drop_first() =~= whole.skip(i - lo + 1));
        }
        if s[i] == c {
            let ghost pre_out = out@;
            out.push((piece_start, i));
            proof {
                assert(out@.drop_last() =~= pre_out);
                assert(range_views(s@, out@) =~= range_views(s@, pre_out).push(
                    s@.subrange(piece_start as int, i as int),
                ));
            }
            piece_start = i + 1;
            proof {
                assert(s@.subrange(i as int + 1, i as int + 1) =~= Seq::<char>::empty());
            }
        } else {
            proof {
                assert(s@.subrange(piece_start as int, i as int + 1) =~= s@.subrange(
                    piece_start as int,
                    i as int,
                ).push(s@[i as int]));
            }
        }
        i += 1;
    }
    proof {
        assert(whole.skip(hi - lo) =~= Seq::<char>::empty());
    }
    let ghost pre_out = out@;
    out.push((piece_start, hi));
    proof {
        assert(out@.drop_last() =~= pre_out);
        assert(range_views(s@, out@) =~= range_views(s@, pre_out).push(
            s@.subrange(piece_start as int, hi as int),
        ));
    }
    out
}

/// A numstat count: the number the text denotes, or zero where it denotes
/// none, as for a binary file's dash.
pub open spec fn count_or_zero(s: Seq<char>) -> u32 {
    match parse_u32_spec(s) {
        Some(n) => n,
        None => 0,
    }
}

/// What one numstat line yields: insertions, deletions and the path, from a
/// line with at least three tab-separated pieces; other lines yield nothing.
pub open spec fn numstat_entry(line: Seq<char>) -> Option<(u32, u32, Seq<char>)> {
    if split_char(line, '\t').len() >= 3 {
        Some(
            (
                count_or_zero(split_char(line, '\t')[0]),
                count_or_zero(split_char(line, '\t')[1]),
                split_char(line, '\t')[2],
            ),
        )
    } else {
        None
    }
}

/// The entries of a numstat listing, in order.
pub open spec fn numstat_entries(lines: Seq<Seq<char>>) -> Seq<(u32, u32, Seq<char>)>
    decreases lines,
{
    if lines.len() == 0 {
        Seq::empty()
    } else {
        let rest = numstat_entries(lines.drop_last());
        match numstat_entry(lines.last()) {
            Some(e) => rest.push(e),
            None => rest,
        }
    }
}

/// Parses the numstat listing of changed files: per qualifying line the
/// insertion count, deletion count and path.
#[verifier::loop_isolation(false)]
pub fn parse_numstat(text: &str) -> (r: Vec<(u32, u32, String)>)
    ensures
        r@.len() == numstat_entries(lines_of(text@)).len(),
        forall|k: int|
            0 <= k < r@.len() ==> ((#[trigger] r@[k]).0, r@[k].1, r@[k].2@)
                == numstat_entries(lines_of(text@))[k],
{
    let lines = split_lines(text);
    let ghost lv = crate::dispatch::line_views(lines@);
    proof {
        assert(lv.take(0) =~= Seq::<Seq<char>>::empty());
    }
    let mut out: Vec<(u32, u32, String)> = Vec::new();
    let mut i: usize = 0;
    while i < lines.len()
        invariant
            i <= lv.len(),
            out@.len() == numstat_entries(lv.take(i as int)).len(),
            forall|k: int|
                0 <= k < out@.len() ==> ((#[trigger] out@[k]).0, out@[k].1, out@[k].2@)
                    == numstat_entries(lv.take(i as int))[k],
        decreases lv.len() - i,
    {
        proof {
            assert(lv.take(i as int + 1).drop_last() =~= lv.take(i as int));
            assert(lv.take(i as int + 1).last() == lv[i as int]);
        }
        let v = chars_of(lines[i].as_str());
        proof {
            assert(v@.subrange(0, v@.len() as int) =~= lv[i as int]);
        }
        let parts = split_char_ranges(&v, 0, v.len(), '\t');
        if parts.len() >= 3 {
            proof {
                assert(range_views(v@, parts@)[0] == v@.subrange(
                    parts@[0].0 as int,
                    parts@[0].1 as int,
                ));
                assert(range_views(v@, parts@)[1] == v@.subrange(
                    parts@[1].0 as int,
                    parts@[1].1 as int,
                ));
                assert(range_views(v@, parts@)[2] == v@.subrange(
                    parts@[2].0 as int,
                    parts@[2].1 as int,
                ));
            }
            let ins = match parse_u32_range(&v, parts[0].0, parts[0].1) {
                Some(n) => n,
                None => 0,
            };
            let del = match parse_u32_range(&v, parts[1].0, parts[1].1) {
                Some(n) => n,
                None => 0,
            };
            let path = string_from_range(&v, parts[2].0, parts[2].1);
            out.push((ins, del, path));
        }
        i += 1;
    }
    proof {
        assert(lv.take(lv.len() as int) =~= lv);
    }
    out
}

/// The models of a list of file diffs.
pub open spec fn file_views(s: Seq<FileDiff>) -> Seq<FileDiffV> {
    Seq::new(s.len(), |i: int| s[i]@)
}

/// The insertions of a list of files, summed with saturation.
pub open spec fn sum_insertions(s: Seq<FileDiffV>) -> u32
    decreases s,
{
    if s.len() == 0 {
        0
    } else {
        sum_insertions(s.drop_last()).saturating_add(s.last().insertions)
    }
}

/// The deletions of a list of files, summed with saturation.
pub open spec fn sum_deletions(s: Seq<FileDiffV>) -> u32
    decreases s,
{
    if s.len() == 0 {
        0
    } else {
        sum_deletions(s.drop_last()).saturating_add(s.last().deletions)
    }
}

/// A file entry of the change summary: counts from the numstat listing, the
/// status found separately, and no hunks, which are loaded on demand.
pub fn numstat_file_diff(path: String, insertions: u32, deletions: u32, status: String) -> (r:
    FileDiff)
    ensures
        r.path == path,
        r.old_path is None,
        r.status == status,
        r.insertions == insertions,
        r.deletions == deletions,
        r@.hunks.len() == 0,
{
    proof {
        assert(hunk_views(Seq::<DiffHunk>::empty()) =~= Seq::<HunkV>::empty());
    }
    FileDiff { path, old_path: None, status, insertions, deletions, hunks: Vec::new() }
}

/// Totals a list of per-file changes: the counts are summed with
/// saturation, and the file count is the list's length.
#[verifier::loop_isolation(false)]
pub fn build_diff_summary(files: Vec<FileDiff>) -> (r: DiffSummary)
    ensures
        r.files == files,
        r.total_insertions == sum_insertions(file_views(files@)),
        r.total_deletions == sum_deletions(file_views(files@)),
        r.total_files == files@.len() as u32,
{
    let ghost fv = file_views(files@);
    proof {
        assert(fv.take(0) =~= Seq::<FileDiffV>::empty());
    }
    let mut total_insertions: u32 = 0;
    let mut total_deletions: u32 = 0;
    let mut i: usize = 0;
    while i < files.len()
        invariant
            i <= fv.len(),
            total_insertions == sum_insertions(fv.take(i as int)),
            total_deletions == sum_deletions(fv.take(i as int)),
        decreases fv.len() - i,
    {
        proof {
            assert(fv.take(i as int + 1).drop_last() =~= fv.take(i as int));
            assert(fv.take(i as int + 1).last() == fv[i as int]);
        }
        total_insertions = total_insertions.saturating_add(files[i].insertions);
        total_deletions = total_deletions.saturating_add(files[i].deletions);
        i += 1;
    }
    proof {
        assert(fv.take(fv.len() as int) =~= fv);
    }
    let total_files = files.len() as u32;
    DiffSummary { files, total_insertions, total_deletions, total_files }
}

/// The status that a name-status letter denotes.
pub open spec fn status_of_char(c: char) -> Seq<char> {
    if c == 'A' {
        "added"@
    } else if c == 'D' {
        "deleted"@
    } else if c == 'R' {
        "renamed"@
    } else if c == 'C' {
        "copied"@
    } else {
        "modified"@
    }
}

/// Reads a file's status from the first character of a name-status listing,
/// a missing one counting as modified.
pub fn file_status_from_output(out: &str) -> (r: String)
    ensures
        r@ == status_of_char(
            if out@.len() > 0 {
                out@[0]
            } else {
                'M'
            },
        ),
{
    let c = if out.unicode_len() > 0 {
        out.get_char(0)
    } else {
        'M'
    };
    if c == 'A' {
        String::from_str("added")
    } else if c == 'D' {
        String::from_str("deleted")
    } else if c == 'R' {
        String::from_str("renamed")
    } else if c == 'C' {
        String::from_str("copied")
    } else {
        proof {
            assert(!(c == 'A') && !(c == 'D') && !(c == 'R') && !(c == 'C'));
        }
        String::from_str("modified")
    }
}

} // verus!
