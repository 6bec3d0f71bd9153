//! Character-level string helpers shared by the parser, the router and the
//! response writer.

use vstd::prelude::*;

verus! {

/// The decimal digit character for a value below ten.
pub open spec fn spec_digit_char(d: nat) -> char
    recommends
        d < 10,
{
    ((48 + d) as u8) as char
}

/// The decimal representation of `n` as a character sequence.
pub open spec fn spec_dec_chars(n: nat) -> Seq<char>
    decreases n,
{
    if n < 10 {
        seq![spec_digit_char(n)]
    } else {
        spec_dec_chars(n / 10).push(spec_digit_char(n % 10))
    }
}

/// Relies on String::push: appends one character to the string.
#[verifier::external_body]
fn push_char(s: &mut String, c: char)
    ensures
        final(s)@ == old(s)@.push(c),
{
    s.push(c);
}

fn push_dec_chars(s: &mut String, n: u64)
    ensures
        final(s)@ == old(s)@ + spec_dec_chars(n as nat),
    decreases n,
{
    if n >= 10 {
        push_dec_chars(s, n / 10);
    }
    let d: u8 = (n % 10) as u8;
    push_char(s, (48 + d) as char);
    proof {
        assert(s@ =~= old(s)@ + spec_dec_chars(n as nat));
    }
}

/// The decimal rendering of `n`, most significant digit first.
pub fn u64_to_string(n: u64) -> (r: String)
    ensures
        r@ == spec_dec_chars(n as nat),
{
    let mut s = String::new();
    push_dec_chars(&mut s, n);
    proof {
        assert(s@ =~= spec_dec_chars(n as nat));
    }
    s
}

/// Position of the first occurrence of `c` in `s`, if any.
pub open spec fn spec_find(s: Seq<char>, c: char) -> Option<nat>
    decreases s.len(),
{
    if s.len() == 0 {
        None
    } else if s[0] == c {
        Some(0nat)
    } else {
        match spec_find(s.drop_first(), c) {
            Some(i) => Some((i + 1) as nat),
            None => None,
        }
    }
}

pub proof fn lemma_find_properties(s: Seq<char>, c: char)
    ensures
        match spec_find(s, c) {
            Some(i) => i < s.len() && s[i as int] == c && forall|j: int|
                0 <= j < i ==> s[j] != c,
            None => forall|j: int| 0 <= j < s.len() ==> s[j] != c,
        },
    decreases s.len(),
{
    if s.len() > 0 && s[0] != c {
        lemma_find_properties(s.drop_first(), c);
        match spec_find(s.drop_first(), c) {
            Some(i) => {
                assert(s.drop_first()[i as int] == s[i as int + 1]);
                assert forall|j: int| 0 <= j < i + 1 implies s[j] != c by {
                    if j > 0 {
                        assert(s.drop_first()[j - 1] == s[j]);
                    }
                }
            },
            None => {
                assert forall|j: int| 0 <= j < s.len() implies s[j] != c by {
                    if j > 0 {
                        assert(s.drop_first()[j - 1] == s[j]);
                    }
                }
            },
        }
    }
}

pub proof fn lemma_find_from_witness(s: Seq<char>, c: char, i: int)
    requires
        0 <= i < s.len(),
        s[i] == c,
        forall|j: int| 0 <= j < i ==> s[j] != c,
    ensures
        spec_find(s, c) == Some(i as nat),
    decreases s.len(),
{
    if i > 0 {
        lemma_find_from_witness(s.drop_first(), c, i - 1);
    }
}

pub proof fn lemma_find_none(s: Seq<char>, c: char)
    requires
        forall|j: int| 0 <= j < s.len() ==> s[j] != c,
    ensures
        spec_find(s, c) is None,
    decreases s.len(),
{
    if s.len() > 0 {
        lemma_find_none(s.drop_first(), c);
    }
}

/// First position of `c` in `s`, or `None`.
pub fn find_char(s: &str, c: char) -> (r: Option<usize>)
    ensures
        match r {
            Some(i) => spec_find(s@, c) == Some(i as nat),
            None => spec_find(s@, c) is None,
        },
{
    let n = s.unicode_len();
    let mut i: usize = 0;
    while i < n
        invariant
            n == s@.len(),
            i <= n,
            forall|j: int| 0 <= j < i ==> s@[j] != c,
        decreases n - i,
    {
        if s.get_char(i) == c {
            proof {
                lemma_find_from_witness(s@, c, i as int);
            }
            return Some(i);
        }
        i += 1;
    }
    proof {
        lemma_find_none(s@, c);
    }
    None
}

/// The pieces of `s` between occurrences of `sep`; always at least one piece,
/// and empty pieces are kept.
pub open spec fn spec_split(s: Seq<char>, sep: char) -> Seq<Seq<char>>
    decreases s.len(),
{
    if s.len() == 0 {
        seq![Seq::empty()]
    } else if s[0] == sep {
        seq![Seq::<char>::empty()] + spec_split(s.drop_first(), sep)
    } else {
        let rest = spec_split(s.drop_first(), sep);
        seq![seq![s[0]] + rest[0]] + rest.drop_first()
    }
}

pub proof fn lemma_split_len(s: Seq<char>, sep: char)
    ensures
        spec_split(s, sep).len() >= 1,
    decreases s.len(),
{
    if s.len() > 0 {
        lemma_split_len(s.drop_first(), sep);
    }
}

/// When `s` holds no separator, it is its own single piece.
pub proof fn lemma_split_no_sep(s: Seq<char>, sep: char)
    requires
        forall|j: int| 0 <= j < s.len() ==> s[j] != sep,
    ensures
        spec_split(s, sep) == seq![s],
    decreases s.len(),
{
    if s.len() == 0 {
        assert(spec_split(s, sep) =~~= seq![s]);
    } else {
        assert forall|j: int| 0 <= j < s.drop_first().len() implies s.drop_first()[j] != sep by {
            assert(s.drop_first()[j] == s[j + 1]);
        }
        lemma_split_no_sep(s.drop_first(), sep);
        let rest = spec_split(s.drop_first(), sep);
        assert(rest[0] == s.drop_first());
        assert(seq![s[0]] + s.drop_first() =~= s);
        assert(spec_split(s, sep) =~~= seq![s]);
    }
}

/// Splitting at the first separator: the head piece, then the split of what
/// follows it.
pub proof fn lemma_split_step(s: Seq<char>, sep: char, i: int)
    requires
        0 <= i < s.len(),
        s[i] == sep,
        forall|j: int| 0 <= j < i ==> s[j] != sep,
    ensures
        spec_split(s, sep) == seq![s.take(i)] + spec_split(s.skip(i + 1), sep),
    decreases s.len(),
{
    if i == 0 {
        assert(s.take(0) =~= Seq::<char>::empty());
        assert(s.skip(1) =~= s.drop_first());
        assert(spec_split(s, sep) =~~= seq![s.take(i)] + spec_split(s.skip(i + 1), sep));
    } else {
        assert forall|j: int| 0 <= j < i - 1 implies s.drop_first()[j] != sep by {
            assert(s.drop_first()[j] == s[j + 1]);
        }
        assert(s.drop_first()[i - 1] == s[i]);
        lemma_split_step(s.drop_first(), sep, i - 1);
        lemma_split_len(s.drop_first().skip(i), sep);
        assert(s.drop_first().take(i - 1) =~= s.take(i).drop_first());
        assert(s.drop_first().skip(i) =~= s.skip(i + 1));
        assert(seq![s[0]] + s.take(i).drop_first() =~= s.take(i));
        assert(spec_split(s, sep) =~~= seq![s.take(i)] + spec_split(s.skip(i + 1), sep));
    }
}

/// Splits `s` on `sep`, keeping empty pieces, as `str::split` does.
pub fn split_char(s: &str, sep: char) -> (r: Vec<String>)
    ensures
        r.deep_view() == spec_split(s@, sep),
{
    let n = s.unicode_len();
    let mut r: Vec<String> = Vec::new();
    let mut start: usize = 0;
    let mut i: usize = 0;
    proof {
        assert(s@.skip(0) =~= s@);
        assert(r.deep_view() =~= Seq::<Seq<char>>::empty());
        assert(r.deep_view() + spec_split(s@, sep) =~= spec_split(s@, sep));
    }
    while i < n
        invariant
            n == s@.len(),
            start <= i <= n,
            forall|j: int| start <= j < i ==> s@[j] != sep,
            spec_split(s@, sep) == r.deep_view() + spec_split(s@.skip(start as int), sep),
        decreases n - i,
    {
        if s.get_char(i) == sep {
            let piece = s.substring_char(start, i);
            let ghost dv = r.deep_view();
            proof {
                let suf = s@.skip(start as int);
                assert forall|j: int| 0 <= j < i - start implies suf[j] != sep by {
                    assert(suf[j] == s@[j + start]);
                }
                assert(suf[i - start] == s@[i as int]);
                lemma_split_step(suf, sep, i - start);
                assert(suf.take(i - start) =~= piece@);
                assert(suf.skip(i - start + 1) =~= s@.skip(i as int + 1));
            }
            r.push(String::from_str(piece));
            proof {
                assert(r.deep_view() =~= dv.push(piece@));
                assert(dv.push(piece@) + spec_split(s@.skip(i as int + 1), sep) =~= dv + (seq![
                    piece@,
                ] + spec_split(s@.skip(i as int + 1), sep)));
            }
            start = i + 1;
        }
        i += 1;
    }
    let piece = s.substring_char(start, n);
    let ghost dv = r.deep_view();
    proof {
        let suf = s@.skip(start as int);
        assert forall|j: int| 0 <= j < suf.len() implies suf[j] != sep by {
            assert(suf[j] == s@[j + start]);
        }
        lemma_split_no_sep(suf, sep);
        assert(suf =~= piece@);
    }
    r.push(String::from_str(piece));
    proof {
        assert(r.deep_view() =~= dv.push(piece@));
        assert(dv.push(piece@) =~= dv + seq![piece@]);
        assert(r.deep_view() == spec_split(s@, sep));
    }
    r
}

/// `s` without its leading `c` characters.
pub open spec fn spec_trim_start(s: Seq<char>, c: char) -> Seq<char>
    decreases s.len(),
{
    if s.len() > 0 && s[0] == c {
        spec_trim_start(s.drop_first(), c)
    } else {
        s
    }
}

/// `s` without its trailing `c` characters.
pub open spec fn spec_trim_end(s: Seq<char>, c: char) -> Seq<char>
    decreases s.len(),
{
    if s.len() > 0 && s[s.len() - 1] == c {
        spec_trim_end(s.drop_last(), c)
    } else {
        s
    }
}

/// `s` without leading and trailing `c` characters.
pub open spec fn spec_trim(s: Seq<char>, c: char) -> Seq<char> {
    spec_trim_end(spec_trim_start(s, c), c)
}

proof fn lemma_trim_start_skip(s: Seq<char>, c: char, i: int)
    requires
        0 <= i <= s.len(),
        forall|j: int| 0 <= j < i ==> s[j] == c,
        i == s.len() || s[i] != c,
    ensures
        spec_trim_start(s, c) == s.skip(i),
    decreases i,
{
    if i == 0 {
        assert(s.skip(0) =~= s);
    } else {
        assert forall|j: int| 0 <= j < i - 1 implies s.drop_first()[j] == c by {
            assert(s.drop_first()[j] == s[j + 1]);
        }
        if i < s.len() {
            assert(s.drop_first()[i - 1] == s[i]);
        }
        lemma_trim_start_skip(s.drop_first(), c, i - 1);
        assert(s.drop_first().skip(i - 1) =~= s.skip(i));
    }
}

proof fn lemma_trim_end_take(s: Seq<char>, c: char, e: int)
    requires
        0 <= e <= s.len(),
        forall|j: int| e <= j < s.len() ==> s[j] == c,
        e == 0 || s[e - 1] != c,
    ensures
        spec_trim_end(s, c) == s.take(e),
    decreases s.len() - e,
{
    if e == s.len() {
        assert(s.take(e) =~= s);
    } else {
        assert(s[s.len() - 1] == c);
        assert forall|j: int| e <= j < s.drop_last().len() implies s.drop_last()[j] == c by {
            assert(s.drop_last()[j] == s[j]);
        }
        if e > 0 {
            assert(s.drop_last()[e - 1] == s[e - 1]);
        }
        lemma_trim_end_take(s.drop_last(), c, e);
        assert(s.drop_last().take(e) =~= s.take(e));
    }
}

/// `s` with every `c` stripped from both ends, as `str::trim_matches` does.
pub fn trim_char<'a>(s: &'a str, c: char) -> (r: &'a str)
    ensures
        r@ == spec_trim(s@, c),
{
    let n = s.unicode_len();
    let mut b: usize = 0;
    while b < n && s.get_char(b) == c
        invariant
            n == s@.len(),
            b <= n,
            forall|j: int| 0 <= j < b ==> s@[j] == c,
        decreases n - b,
    {
        b += 1;
    }
    let mut e: usize = n;
    while e > b && s.get_char(e - 1) == c
        invariant
            n == s@.len(),
            b <= e <= n,
            forall|j: int| e <= j < n ==> s@[j] == c,
        decreases e,
    {
        e -= 1;
    }
    let r = s.substring_char(b, e);
    proof {
        lemma_trim_start_skip(s@, c, b as int);
        let t = s@.skip(b as int);
        assert forall|j: int| e - b <= j < t.len() implies t[j] == c by {
            assert(t[j] == s@[j + b]);
        }
        if e > b {
            assert(t[e - b - 1] == s@[e - 1]);
        }
        lemma_trim_end_take(t, c, e - b);
        assert(t.take(e - b) =~= s@.subrange(b as int, e as int));
    }
    r
}

/// The ASCII lower-case fold of one character.
pub open spec fn spec_lower_char(c: char) -> char {
    if 65 <= c as u32 && c as u32 <= 90 {
        (((c as u32) + 32) as u8) as char
    } else {
        c
    }
}

/// The ASCII lower-case fold of a string.
pub open spec fn spec_lower(s: Seq<char>) -> Seq<char> {
    s.map_values(|c: char| spec_lower_char(c))
}

/// Case-folds ASCII letters to lower case; other characters are unchanged.
pub fn to_lowercase_ascii(s: &str) -> (r: String)
    ensures
        r@ == spec_lower(s@),
{
    let n = s.unicode_len();
    let mut r = String::new();
    let mut i: usize = 0;
    while i < n
        invariant
            n == s@.len(),
            i <= n,
            r@ == s@.take(i as int).map_values(|c: char| spec_lower_char(c)),
        decreases n - i,
    {
        let c = s.get_char(i);
        let u = c as u32;
        let ghost prev = r@;
        if 65 <= u && u <= 90 {
            push_char(&mut r, ((u + 32) as u8) as char);
        } else {
            push_char(&mut r, c);
        }
        proof {
            assert(r@ =~= prev.push(spec_lower_char(s@[i as int])));
            assert(s@.take(i as int + 1).map_values(|c: char| spec_lower_char(c)) =~= s@.take(
                i as int,
            ).map_values(|c: char| spec_lower_char(c)).push(spec_lower_char(s@[i as int])));
        }
        i += 1;
    }
    proof {
        assert(s@.take(n as int) =~= s@);
    }
    r
}

/// Whether the first character of `s` is `c`.
pub fn starts_with_char(s: &str, c: char) -> (r: bool)
    ensures
        r == (s@.len() > 0 && s@[0] == c),
{
    if s.unicode_len() == 0 {
        false
    } else {
        s.get_char(0) == c
    }
}

/// Character-by-character string equality.
pub fn str_eq(a: &str, b: &str) -> (r: bool)
    ensures
        r == (a@ == b@),
{
    let n = a.unicode_len();
    if n != b.unicode_len() {
        proof {
            assert(a@.len() != b@.len());
        }
        return false;
    }
    let mut i: usize = 0;
    while i < n
        invariant
            n == a@.len() == b@.len(),
            i <= n,
            forall|j: int| 0 <= j < i ==> a@[j] == b@[j],
        decreases n - i,
    {
        if a.get_char(i) != b.get_char(i) {
            return false;
        }
        i += 1;
    }
    proof {
        assert(a@ =~= b@);
    }
    true
}

/// Whether `c` is a decimal digit.
pub open spec fn spec_is_digit(c: char) -> bool {
    48 <= c as u32 && c as u32 <= 57
}

/// The value of a decimal digit character.
pub open spec fn spec_digit_val(c: char) -> nat
    recommends
        spec_is_digit(c),
{
    ((c as u32) - 48) as nat
}

/// The value of a sequence of decimal digit characters.
pub open spec fn spec_dec_val(s: Seq<char>) -> nat
    decreases s.len(),
{
    if s.len() == 0 {
        0
    } else {
        spec_dec_val(s.drop_last()) * 10 + spec_digit_val(s[s.len() - 1])
    }
}

pub open spec fn spec_all_digits(s: Seq<char>) -> bool {
    forall|i: int| 0 <= i < s.len() ==> spec_is_digit(#[trigger] s[i])
}

/// What `str::parse::<usize>` accepts: an optional leading `+`, then at
/// least one digit, with a value that fits in `usize`.
pub open spec fn spec_parse_usize(s: Seq<char>) -> Option<usize> {
    let t = if s.len() > 0 && s[0] == '+' {
        s.drop_first()
    } else {
        s
    };
    if t.len() > 0 && spec_all_digits(t) && spec_dec_val(t) <= usize::MAX {
        Some(spec_dec_val(t) as usize)
    } else {
        None
    }
}

proof fn lemma_dec_val_prefix_le(s: Seq<char>, i: int)
    requires
        0 <= i <= s.len(),
    ensures
        spec_dec_val(s.take(i)) <= spec_dec_val(s),
    decreases s.len() - i,
{
    if i < s.len() {
        lemma_dec_val_prefix_le(s, i + 1);
        assert(s.take(i + 1).drop_last() =~= s.take(i));
        assert(s.take(i + 1)[i] == s[i]);
        assert(spec_dec_val(s.take(i + 1)) == spec_dec_val(s.take(i)) * 10 + spec_digit_val(s[i]));
        assert(spec_dec_val(s.take(i)) * 10 >= spec_dec_val(s.take(i)));
    } else {
        assert(s.take(i) =~= s);
    }
}

/// Parses a decimal integer the way `str::parse::<usize>` does, except that a
/// leading `-` or other sign handling beyond `+` is rejected just as there.
pub fn parse_usize(s: &str) -> (r: Option<usize>)
    ensures
        r == spec_parse_usize(s@),
{
    let n = s.unicode_len();
    let mut start: usize = 0;
    if n > 0 && s.get_char(0) == '+' {
        start = 1;
    }
    let ghost t = if s@.len() > 0 && s@[0] == '+' {
        s@.drop_first()
    } else {
        s@
    };
    proof {
        assert(t =~= s@.skip(start as int));
    }
    if start == n {
        return None;
    }
    let mut acc: usize = 0;
    let mut i: usize = start;
    while i < n
        invariant
            n == s@.len(),
            start <= i <= n,
            start < n,
            t == s@.skip(start as int),
            t == (if s@.len() > 0 && s@[0] == '+' {
                s@.drop_first()
            } else {
                s@
            }),
            forall|j: int| start <= j < i ==> spec_is_digit(#[trigger] s@[j]),
            acc == spec_dec_val(t.take(i - start)),
        decreases n - i,
    {
        let c = s.get_char(i);
        let u = c as u32;
        if u < 48 || u > 57 {
            proof {
                assert(t[i - start] == s@[i as int]);
                assert(!spec_all_digits(t));
            }
            return None;
        }
        let d: usize = (u - 48) as usize;
        proof {
            assert(t.take(i - start + 1).drop_last() =~= t.take(i - start));
            assert(t[i - start] == s@[i as int]);
            assert(spec_dec_val(t.take(i - start + 1)) == acc * 10 + d);
        }
        if acc > usize::MAX / 10 {
            proof {
                assert(usize::MAX == 10 * (usize::MAX / 10) + (usize::MAX % 10)) by (nonlinear_arith);
                assert(acc * 10 >= (usize::MAX / 10 + 1) * 10) by (nonlinear_arith)
                    requires
                        acc >= usize::MAX / 10 + 1,
                ;
                assert(spec_dec_val(t.take(i - start + 1)) > usize::MAX);
                lemma_dec_val_prefix_le(t, i - start + 1);
            }
            return None;
        }
        let acc10: usize = acc * 10;
        if d > usize::MAX - acc10 {
            proof {
                assert(spec_dec_val(t.take(i - start + 1)) > usize::MAX);
                lemma_dec_val_prefix_le(t, i - start + 1);
            }
            return None;
        }
        acc = acc10 + d;
        i += 1;
    }
    proof {
        assert(t.take(n - start) =~= t);
        assert forall|j: int| 0 <= j < t.len() implies spec_is_digit(#[trigger] t[j]) by {
            assert(t[j] == s@[j + start]);
        }
    }
    Some(acc)
}

/// Position of the first adjacent pair `a`,`b` in `s`, if any; what
/// `str::find` of a two-character pattern finds.
pub open spec fn spec_find_pair(s: Seq<char>, a: char, b: char) -> Option<nat>
    decreases s.len(),
{
    if s.len() < 2 {
        None
    } else if s[0] == a && s[1] == b {
        Some(0nat)
    } else {
        match spec_find_pair(s.drop_first(), a, b) {
            Some(i) => Some((i + 1) as nat),
            None => None,
        }
    }
}

proof fn lemma_find_pair_from_witness(s: Seq<char>, a: char, b: char, i: int)
    requires
        0 <= i,
        i + 1 < s.len(),
        s[i] == a && s[i + 1] == b,
        forall|j: int| 0 <= j < i ==> !(#[trigger] s[j] == a && s[j + 1] == b),
    ensures
        spec_find_pair(s, a, b) == Some(i as nat),
    decreases i,
{
    if i > 0 {
        assert forall|j: int| 0 <= j < i - 1 implies !(#[trigger] s.drop_first()[j] == a
            && s.drop_first()[j + 1] == b) by {
            assert(s.drop_first()[j] == s[j + 1]);
            assert(s.drop_first()[j + 1] == s[j + 2]);
        }
        assert(s.drop_first()[i - 1] == s[i]);
        assert(s.drop_first()[i] == s[i + 1]);
        lemma_find_pair_from_witness(s.drop_first(), a, b, i - 1);
    }
}

proof fn lemma_find_pair_none(s: Seq<char>, a: char, b: char)
    requires
        forall|j: int| 0 <= j && j + 1 < s.len() ==> !(#[trigger] s[j] == a && s[j + 1] == b),
    ensures
        spec_find_pair(s, a, b) is None,
    decreases s.len(),
{
    if s.len() >= 2 {
        assert forall|j: int| 0 <= j && j + 1 < s.drop_first().len() implies !(
            #[trigger] s.drop_first()[j] == a && s.drop_first()[j + 1] == b) by {
            assert(s.drop_first()[j] == s[j + 1]);
            assert(s.drop_first()[j + 1] == s[j + 2]);
        }
        lemma_find_pair_none(s.drop_first(), a, b);
    }
}

/// What `str::split_once` with a two-character pattern returns.
pub open spec fn spec_split_once2(s: Seq<char>, a: char, b: char) -> Option<(Seq<char>, Seq<char>)> {
    match spec_find_pair(s, a, b) {
        Some(i) => Some((s.take(i as int), s.skip(i as int + 2))),
        None => None,
    }
}

/// Splits `s` at the first adjacent pair `a`,`b`, dropping the pair itself.
pub fn split_once_pair<'a>(s: &'a str, a: char, b: char) -> (r: Option<(&'a str, &'a str)>)
    ensures
        match r {
            Some(p) => spec_split_once2(s@, a, b) == Some((p.0@, p.1@)),
            None => spec_split_once2(s@, a, b) is None,
        },
{
    let n = s.unicode_len();
    if n < 2 {
        proof {
            lemma_find_pair_none(s@, a, b);
        }
        return None;
    }
    let mut i: usize = 0;
    while i + 1 < n
        invariant
            n == s@.len(),
            i + 1 <= n,
            forall|j: int| 0 <= j < i ==> !(#[trigger] s@[j] == a && s@[j + 1] == b),
        decreases n - i,
    {
        if s.get_char(i) == a && s.get_char(i + 1) == b {
            proof {
                lemma_find_pair_from_witness(s@, a, b, i as int);
            }
            let left = s.substring_char(0, i);
            let right = s.substring_char(i + 2, n);
            proof {
                assert(left@ =~= s@.take(i as int));
                assert(right@ =~= s@.skip(i as int + 2));
            }
            return Some((left, right));
        }
        i += 1;
    }
    proof {
        lemma_find_pair_none(s@, a, b);
    }
    None
}

} // verus!


verus! {

/// The nonempty pieces of a piece list, in order.
pub open spec fn spec_nonempty(ps: Seq<Seq<char>>) -> Seq<Seq<char>>
    decreases ps.len(),
{
    if ps.len() == 0 {
        Seq::empty()
    } else {
        let rest = spec_nonempty(ps.drop_last());
        if ps.last().len() > 0 {
            rest.push(ps.last())
        } else {
            rest
        }
    }
}

/// The space-separated words of a line, empties dropped; how a request line
/// `METHOD SP TARGET SP VERSION` comes apart.
pub open spec fn spec_line_tokens(line: Seq<char>) -> Seq<Seq<char>> {
    spec_nonempty(spec_split(line, ' '))
}

/// The space-separated words of `s`.
pub fn line_tokens(s: &str) -> (r: Vec<String>)
    ensures
        r.deep_view() == spec_line_tokens(s@),
{
    let pieces = split_char(s, ' ');
    let n = pieces.len();
    let mut r: Vec<String> = Vec::new();
    let mut i: usize = 0;
    proof {
        assert(r.deep_view() =~= spec_nonempty(pieces.deep_view().take(0)));
    }
    while i < n
        invariant
            n == pieces@.len(),
            pieces.deep_view() == spec_split(s@, ' '),
            i <= n,
            r.deep_view() == spec_nonempty(pieces.deep_view().take(i as int)),
        decreases n - i,
    {
        let ghost dv = r.deep_view();
        let ghost pdv = pieces.deep_view();
        proof {
            assert(pdv.take(i as int + 1).drop_last() =~= pdv.take(i as int));
            assert(pdv[i as int] == pieces@[i as int]@);
        }
        let p = &pieces[i];
        if !p.as_str().is_empty() {
            r.push(p.clone());
            proof {
                assert(r.deep_view() =~= dv.push(p@));
            }
        }
        i += 1;
    }
    proof {
        assert(pieces.deep_view().take(n as int) =~= pieces.deep_view());
    }
    r
}

/// The pieces glued back together with `sep` between them.
pub open spec fn spec_join(ps: Seq<Seq<char>>, sep: char) -> Seq<char>
    decreases ps.len(),
{
    if ps.len() == 0 {
        Seq::empty()
    } else if ps.len() == 1 {
        ps[0]
    } else {
        spec_join(ps.drop_last(), sep) + seq![sep] + ps.last()
    }
}

/// Joins the lines with `sep`, as `[String]::join` does.
pub fn join_with(v: &Vec<String>, sep: char) -> (r: String)
    ensures
        r@ == spec_join(v.deep_view(), sep),
{
    let n = v.len();
    let mut r = String::new();
    let mut i: usize = 0;
    proof {
        assert(r@ =~= spec_join(v.deep_view().take(0), sep));
    }
    while i < n
        invariant
            n == v@.len(),
            i <= n,
            r@ == spec_join(v.deep_view().take(i as int), sep),
        decreases n - i,
    {
        let ghost dv = v.deep_view();
        proof {
            assert(dv.take(i as int + 1).drop_last() =~= dv.take(i as int));
            assert(dv.take(i as int + 1).last() == dv[i as int]);
            assert(dv[i as int] == v@[i as int]@);
        }
        if i > 0 {
            push_char(&mut r, sep);
        }
        r.append(v[i].as_str());
        proof {
            if i == 0 {
                assert(r@ =~= spec_join(dv.take(1), sep));
            } else {
                assert(r@ =~= spec_join(dv.take(i as int + 1), sep));
            }
        }
        i += 1;
    }
    proof {
        assert(v.deep_view().take(n as int) =~= v.deep_view());
    }
    r
}

} // verus!

verus! {

/// `s` without its leading `c` characters, as `str::trim_start_matches` of a
/// single character does.
pub fn trim_start_char<'a>(s: &'a str, c: char) -> (r: &'a str)
    ensures
        r@ == spec_trim_start(s@, c),
{
    let n = s.unicode_len();
    let mut b: usize = 0;
    while b < n && s.get_char(b) == c
        invariant
            n == s@.len(),
            b <= n,
            forall|j: int| 0 <= j < b ==> s@[j] == c,
        decreases n - b,
    {
        b += 1;
    }
    let r = s.substring_char(b, n);
    proof {
        lemma_trim_start_skip(s@, c, b as int);
        assert(s@.skip(b as int) =~= s@.subrange(b as int, n as int));
    }
    r
}

} // verus!
