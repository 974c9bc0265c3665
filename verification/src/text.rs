//! Character-level text handling shared by the argument parser, the
//! resolver front end and the DNS updater: trimming, splitting and the
//! comparisons the rest of the library needs, each with a spec over `Seq<char>`.
use vstd::prelude::*;

verus! {

broadcast use vstd::string::group_string_axioms;

/// Unicode `White_Space`, the set that `char::is_whitespace` tests.
pub open spec fn is_white_space(c: char) -> bool {
    let u = c as u32;
    ||| (0x9 <= u && u <= 0xd)
    ||| u == 0x20
    ||| u == 0x85
    ||| u == 0xa0
    ||| u == 0x1680
    ||| (0x2000 <= u && u <= 0x200a)
    ||| u == 0x2028
    ||| u == 0x2029
    ||| u == 0x202f
    ||| u == 0x205f
    ||| u == 0x3000
}

/// `s` without its leading white space.
pub open spec fn trim_start_ws(s: Seq<char>) -> Seq<char>
    decreases s.len(),
{
    if s.len() > 0 && is_white_space(s[0]) {
        trim_start_ws(s.drop_first())
    } else {
        s
    }
}

/// `s` without its trailing white space.
pub open spec fn trim_end_ws(s: Seq<char>) -> Seq<char>
    decreases s.len(),
{
    if s.len() > 0 && is_white_space(s.last()) {
        trim_end_ws(s.drop_last())
    } else {
        s
    }
}

/// `s` without leading and trailing white space (`str::trim`).
pub open spec fn trim_ws(s: Seq<char>) -> Seq<char> {
    trim_end_ws(trim_start_ws(s))
}

/// `s` without any leading copies of `c` (`str::trim_start_matches` with a char).
pub open spec fn trim_start_char(s: Seq<char>, c: char) -> Seq<char>
    decreases s.len(),
{
    if s.len() > 0 && s[0] == c {
        trim_start_char(s.drop_first(), c)
    } else {
        s
    }
}

/// `s` without any trailing copies of `c` (`str::trim_end_matches` with a char).
pub open spec fn trim_end_char(s: Seq<char>, c: char) -> Seq<char>
    decreases s.len(),
{
    if s.len() > 0 && s.last() == c {
        trim_end_char(s.drop_last(), c)
    } else {
        s
    }
}

/// The pieces finished so far and the piece under way when `s` is cut at each `sep`.
pub open spec fn split_state(s: Seq<char>, sep: char) -> (Seq<Seq<char>>, Seq<char>)
    decreases s.len(),
{
    if s.len() == 0 {
        (seq![], seq![])
    } else {
        let st = split_state(s.drop_last(), sep);
        if s.last() == sep {
            (st.0.push(st.1), seq![])
        } else {
            (st.0, st.1.push(s.last()))
        }
    }
}

/// `s.split(sep)`: the pieces between the separators, empty ones included.
pub open spec fn split_on(s: Seq<char>, sep: char) -> Seq<Seq<char>> {
    split_state(s, sep).0.push(split_state(s, sep).1)
}

/// The words finished so far and the word under way, for `split_whitespace`.
pub open spec fn words_state(s: Seq<char>) -> (Seq<Seq<char>>, Seq<char>)
    decreases s.len(),
{
    if s.len() == 0 {
        (seq![], seq![])
    } else {
        let st = words_state(s.drop_last());
        if is_white_space(s.last()) {
            if st.1.len() > 0 {
                (st.0.push(st.1), seq![])
            } else {
                (st.0, seq![])
            }
        } else {
            (st.0, st.1.push(s.last()))
        }
    }
}

/// `s.split_whitespace()`: the maximal runs of non-white-space characters.
pub open spec fn words(s: Seq<char>) -> Seq<Seq<char>> {
    if words_state(s).1.len() > 0 {
        words_state(s).0.push(words_state(s).1)
    } else {
        words_state(s).0
    }
}

/// Each piece trimmed, the empty results left out, order kept.
pub open spec fn trimmed_nonempty(pieces: Seq<Seq<char>>) -> Seq<Seq<char>>
    decreases pieces.len(),
{
    if pieces.len() == 0 {
        seq![]
    } else {
        let rest = trimmed_nonempty(pieces.drop_last());
        let t = trim_ws(pieces.last());
        if t.len() > 0 {
            rest.push(t)
        } else {
            rest
        }
    }
}

/// The comma list `s.split(',').map(trim).filter(non-empty)`.
pub open spec fn comma_list(s: Seq<char>) -> Seq<Seq<char>> {
    trimmed_nonempty(split_on(s, ','))
}

/// Whether `s` begins with `c`.
pub open spec fn starts_with_char(s: Seq<char>, c: char) -> bool {
    s.len() > 0 && s[0] == c
}

/// A character vector's deep view is its view.
pub proof fn lemma_chars_deep_view(v: Vec<char>)
    ensures
        v.deep_view() == v@,
{
    assert(v.deep_view() =~= v@);
}

/// The characters of `s`, in order.
pub fn chars_of(s: &str) -> (out: Vec<char>)
    ensures
        out@ == s@,
{
    let mut out: Vec<char> = Vec::new();
    for c in it: s.chars()
        invariant
            out@ == it.seq().take(it.index() as int),
            it.seq() == s@,
    {
        out.push(c);
    }
    out
}

/// Collects characters into a `String` (std's `FromIterator<char>`); the
/// contract says the string holds exactly those characters.
#[verifier::external_body]
pub fn string_from_chars(v: &[char]) -> (s: String)
    ensures
        s@ == v@,
{
    v.iter().collect()
}

/// Whether `c` is Unicode white space.
pub fn is_white_space_char(c: char) -> (b: bool)
    ensures
        b == is_white_space(c),
{
    let u = c as u32;
    (0x9 <= u && u <= 0xd) || u == 0x20 || u == 0x85 || u == 0xa0 || u == 0x1680 || (0x2000 <= u
        && u <= 0x200a) || u == 0x2028 || u == 0x2029 || u == 0x202f || u == 0x205f || u == 0x3000
}

/// A copy of `v[from..to]`.
pub fn copy_range(v: &Vec<char>, from: usize, to: usize) -> (out: Vec<char>)
    requires
        from <= to <= v.len(),
    ensures
        out@ == v@.subrange(from as int, to as int),
{
    let mut out: Vec<char> = Vec::new();
    let mut i = from;
    while i < to
        invariant
            from <= i <= to <= v.len(),
            out@ == v@.subrange(from as int, i as int),
        decreases to - i,
    {
        out.push(v[i]);
        i = i + 1;
    }
    out
}

/// `v` without leading and trailing white space.
pub fn trim_chars(v: &Vec<char>) -> (out: Vec<char>)
    ensures
        out@ == trim_ws(v@),
{
    let mut i: usize = 0;
    assert(v@.skip(0) =~= v@);
    while i < v.len() && is_white_space_char(v[i])
        invariant
            i <= v.len(),
            trim_start_ws(v@) == trim_start_ws(v@.skip(i as int)),
        decreases v.len() - i,
    {
        assert(v@.skip(i as int).drop_first() =~= v@.skip(i + 1));
        i = i + 1;
    }
    let ghost t = v@.skip(i as int);
    assert(trim_start_ws(t) == t);
    let mut j: usize = v.len();
    while j > i && is_white_space_char(v[j - 1])
        invariant
            i <= j <= v.len(),
            t == v@.skip(i as int),
            trim_end_ws(t) == trim_end_ws(v@.subrange(i as int, j as int)),
        decreases j,
    {
        assert(v@.subrange(i as int, j as int).drop_last() =~= v@.subrange(i as int, j - 1));
        j = j - 1;
    }
    assert(t =~= v@.subrange(i as int, v.len() as int));
    copy_range(v, i, j)
}

/// `s.trim()`.
pub fn trim(s: &str) -> (out: String)
    ensures
        out@ == trim_ws(s@),
{
    let v = chars_of(s);
    let t = trim_chars(&v);
    string_from_chars(t.as_slice())
}

/// `v` without any leading copies of `c`.
pub fn trim_start_matches_char(v: &Vec<char>, c: char) -> (out: Vec<char>)
    ensures
        out@ == trim_start_char(v@, c),
{
    let mut i: usize = 0;
    assert(v@.skip(0) =~= v@);
    while i < v.len() && v[i] == c
        invariant
            i <= v.len(),
            trim_start_char(v@, c) == trim_start_char(v@.skip(i as int), c),
        decreases v.len() - i,
    {
        assert(v@.skip(i as int).drop_first() =~= v@.skip(i + 1));
        i = i + 1;
    }
    assert(v@.skip(i as int) =~= v@.subrange(i as int, v.len() as int));
    copy_range(v, i, v.len())
}

/// `v` without any trailing copies of `c`.
pub fn trim_end_matches_char(v: &Vec<char>, c: char) -> (out: Vec<char>)
    ensures
        out@ == trim_end_char(v@, c),
{
    let mut j: usize = v.len();
    assert(v@.take(v.len() as int) =~= v@);
    while j > 0 && v[j - 1] == c
        invariant
            j <= v.len(),
            trim_end_char(v@, c) == trim_end_char(v@.take(j as int), c),
        decreases j,
    {
        assert(v@.take(j as int).drop_last() =~= v@.take(j - 1));
        j = j - 1;
    }
    assert(v@.take(j as int) =~= v@.subrange(0, j as int));
    copy_range(v, 0, j)
}

/// Whether `v` begins with `c`.
pub fn starts_with(v: &Vec<char>, c: char) -> (b: bool)
    ensures
        b == starts_with_char(v@, c),
{
    v.len() > 0 && v[0] == c
}

/// Whether `c` occurs in `v`.
pub fn contains_char(v: &Vec<char>, c: char) -> (b: bool)
    ensures
        b == v@.contains(c),
{
    let mut i: usize = 0;
    while i < v.len()
        invariant
            i <= v.len(),
            forall|k: int| 0 <= k < i ==> v@[k] != c,
        decreases v.len() - i,
    {
        if v[i] == c {
            return true;
        }
        i = i + 1;
    }
    false
}

/// Whether `v` holds exactly the characters of `lit`.
pub fn chars_eq_str(v: &Vec<char>, lit: &str) -> (b: bool)
    ensures
        b == (v@ == lit@),
{
    let w = chars_of(lit);
    if v.len() != w.len() {
        return false;
    }
    let mut i: usize = 0;
    while i < v.len()
        invariant
            i <= v.len() == w.len(),
            w@ == lit@,
            forall|k: int| 0 <= k < i ==> v@[k] == w@[k],
        decreases v.len() - i,
    {
        if v[i] != w[i] {
            return false;
        }
        i = i + 1;
    }
    assert(v@ =~= w@);
    true
}

/// `v.split(sep)`, each piece as a character vector.
pub fn split_char(v: &Vec<char>, sep: char) -> (out: Vec<Vec<char>>)
    ensures
        out.deep_view() == split_on(v@, sep),
{
    let mut done: Vec<Vec<char>> = Vec::new();
    let mut cur: Vec<char> = Vec::new();
    let mut i: usize = 0;
    assert(v@.take(0) =~= Seq::<char>::empty());
    while i < v.len()
        invariant
            i <= v.len(),
            (done.deep_view(), cur@) == split_state(v@.take(i as int), sep),
        decreases v.len() - i,
    {
        assert(v@.take(i + 1).drop_last() =~= v@.take(i as int));
        let c = v[i];
        if c == sep {
            let finished = cur;
            let ghost before = done.deep_view();
            proof {
                lemma_chars_deep_view(finished);
            }
            done.push(finished);
            cur = Vec::new();
            assert(done.deep_view() =~= before.push(finished@));
        } else {
            cur.push(c);
        }
        i = i + 1;
    }
    assert(v@.take(v.len() as int) =~= v@);
    let last = cur;
    let ghost before = done.deep_view();
    proof {
        lemma_chars_deep_view(last);
    }
    done.push(last);
    assert(done.deep_view() =~= before.push(last@));
    done
}

/// `v.split_whitespace()`, each word as a character vector.
pub fn split_whitespace_chars(v: &Vec<char>) -> (out: Vec<Vec<char>>)
    ensures
        out.deep_view() == words(v@),
{
    let mut done: Vec<Vec<char>> = Vec::new();
    let mut cur: Vec<char> = Vec::new();
    let mut i: usize = 0;
    assert(v@.take(0) =~= Seq::<char>::empty());
    while i < v.len()
        invariant
            i <= v.len(),
            (done.deep_view(), cur@) == words_state(v@.take(i as int)),
        decreases v.len() - i,
    {
        assert(v@.take(i + 1).drop_last() =~= v@.take(i as int));
        let c = v[i];
        if is_white_space_char(c) {
            if cur.len() > 0 {
                let finished = cur;
                let ghost before = done.deep_view();
                proof {
                    lemma_chars_deep_view(finished);
                }
                done.push(finished);
                cur = Vec::new();
                assert(done.deep_view() =~= before.push(finished@));
            }
        } else {
            cur.push(c);
        }
        i = i + 1;
    }
    assert(v@.take(v.len() as int) =~= v@);
    if cur.len() > 0 {
        let last = cur;
        let ghost before = done.deep_view();
        proof {
            lemma_chars_deep_view(last);
        }
        done.push(last);
        assert(done.deep_view() =~= before.push(last@));
    }
    done
}

/// Turns character vectors into strings, one for one.
pub fn strings_from_pieces(pieces: &Vec<Vec<char>>) -> (out: Vec<String>)
    ensures
        out.deep_view() == pieces.deep_view(),
{
    let mut out: Vec<String> = Vec::new();
    let mut i: usize = 0;
    while i < pieces.len()
        invariant
            i <= pieces.len(),
            out.deep_view() =~= pieces.deep_view().take(i as int),
        decreases pieces.len() - i,
    {
        let s = string_from_chars(pieces[i].as_slice());
        proof {
            lemma_chars_deep_view(pieces[i as int]);
        }
        let ghost before = out.deep_view();
        out.push(s);
        assert(out.deep_view() =~= before.push(s@));
        assert(pieces.deep_view().take(i + 1) =~= pieces.deep_view().take(i as int).push(
            pieces[i as int]@,
        ));
        i = i + 1;
    }
    assert(pieces.deep_view().take(pieces.len() as int) =~= pieces.deep_view());
    out
}

/// The comma-separated items of `s`, trimmed, empty ones dropped.
pub fn split_comma_list(s: &str) -> (out: Vec<String>)
    ensures
        out.deep_view() == comma_list(s@),
{
    let v = chars_of(s);
    let pieces = split_char(&v, ',');
    let mut out: Vec<String> = Vec::new();
    let mut i: usize = 0;
    assert(pieces.deep_view().take(0) =~= Seq::<Seq<char>>::empty());
    while i < pieces.len()
        invariant
            i <= pieces.len(),
            pieces.deep_view() == split_on(v@, ','),
            out.deep_view() == trimmed_nonempty(pieces.deep_view().take(i as int)),
        decreases pieces.len() - i,
    {
        assert(pieces.deep_view().take(i + 1).drop_last() =~= pieces.deep_view().take(i as int));
        proof {
            lemma_chars_deep_view(pieces[i as int]);
        }
        assert(pieces.deep_view().take(i + 1).last() == pieces[i as int]@);
        let t = trim_chars(&pieces[i]);
        if t.len() > 0 {
            let s = string_from_chars(t.as_slice());
            let ghost before = out.deep_view();
            out.push(s);
            assert(out.deep_view() =~= before.push(s@));
            assert(out.deep_view() =~= trimmed_nonempty(pieces.deep_view().take(i as int)).push(
                t@,
            ));
        }
        i = i + 1;
    }
    assert(pieces.deep_view().take(pieces.len() as int) =~= pieces.deep_view());
    out
}

/// Whether `c` is an ASCII decimal digit.
pub open spec fn is_digit(c: char) -> bool {
    48 <= (c as u32) && (c as u32) <= 57
}

/// The value of a digit character.
pub open spec fn digit_value(c: char) -> int {
    (c as u32) - 48
}

/// Whether every character of `s` is a decimal digit.
pub open spec fn all_digits(s: Seq<char>) -> bool {
    forall|i: int| 0 <= i < s.len() ==> is_digit(#[trigger] s[i])
}

/// The number that the digits `s` spell in base ten.
pub open spec fn decimal_value(s: Seq<char>) -> int
    decreases s.len(),
{
    if s.len() == 0 {
        0
    } else {
        decimal_value(s.drop_last()) * 10 + digit_value(s.last())
    }
}

/// The digit part of an unsigned number's text: one leading `+` is allowed.
pub open spec fn unsigned_digits(s: Seq<char>) -> Seq<char> {
    if starts_with_char(s, '+') {
        s.drop_first()
    } else {
        s
    }
}

/// What `str::parse` gives for an unsigned integer type whose largest value is
/// `max`: an optional `+`, then at least one decimal digit and nothing else,
/// with a value no larger than `max`.
pub open spec fn parse_unsigned(s: Seq<char>, max: int) -> Option<int> {
    let d = unsigned_digits(s);
    if d.len() > 0 && all_digits(d) && decimal_value(d) <= max {
        Some(decimal_value(d))
    } else {
        None
    }
}

/// A digit string is worth at least as much as any of its prefixes.
pub proof fn lemma_decimal_prefix_le(d: Seq<char>, k: int)
    requires
        0 <= k <= d.len(),
        all_digits(d),
    ensures
        decimal_value(d.take(k)) <= decimal_value(d),
        decimal_value(d) >= 0,
    decreases d.len(),
{
    if d.len() > 0 {
        assert(all_digits(d.drop_last()));
        assert(is_digit(d[d.len() - 1]));
        if k == d.len() {
            assert(d.take(k) =~= d);
            lemma_decimal_prefix_le(d.drop_last(), 0);
        } else {
            assert(d.take(k) =~= d.drop_last().take(k));
            lemma_decimal_prefix_le(d.drop_last(), k);
        }
    } else {
        assert(d.take(k) =~= d);
    }
}

/// Parses an unsigned decimal number no larger than `max`, as `str::parse`
/// does for the unsigned integer types.
pub fn parse_decimal(v: &Vec<char>, max: u64) -> (r: Option<u64>)
    ensures
        match r {
            Some(x) => parse_unsigned(v@, max as int) == Some(x as int),
            None => parse_unsigned(v@, max as int) is None,
        },
{
    let start: usize = if v.len() > 0 && v[0] == '+' {
        1
    } else {
        0
    };
    let ghost d = unsigned_digits(v@);
    assert(d =~= v@.skip(start as int));
    if start == v.len() {
        return None;
    }
    let mut acc: u128 = 0;
    let mut k: usize = start;
    assert(d.take(0) =~= Seq::<char>::empty());
    while k < v.len()
        invariant
            start <= k <= v.len(),
            d == unsigned_digits(v@),
            d =~= v@.skip(start as int),
            all_digits(d.take(k - start)),
            acc == decimal_value(d.take(k - start)),
            acc <= max,
        decreases v.len() - k,
    {
        let c = v[k];
        let u = c as u32;
        if u < 48 || u > 57 {
            assert(d[k - start] == c);
            assert(!is_digit(d[k - start]));
            assert(!all_digits(d));
            return None;
        }
        assert(d.take(k - start + 1).drop_last() =~= d.take(k - start));
        assert(d.take(k - start + 1).last() == c);
        acc = acc * 10 + ((u - 48) as u128);
        assert(d[k - start] == c);
        assert(acc == decimal_value(d.take(k - start + 1)));
        assert(all_digits(d.take(k - start + 1)));
        if acc > max as u128 {
            proof {
                if all_digits(d) {
                    lemma_decimal_prefix_le(d, k - start + 1);
                    assert(decimal_value(d) > max);
                }
            }
            return None;
        }
        k = k + 1;
    }
    assert(d.take(k - start) =~= d);
    Some(acc as u64)
}

/// A copy of a list of strings.
pub fn copy_strings(v: &Vec<String>) -> (out: Vec<String>)
    ensures
        out.deep_view() == v.deep_view(),
{
    let mut out: Vec<String> = Vec::new();
    let mut i: usize = 0;
    while i < v.len()
        invariant
            i <= v.len(),
            out.deep_view() =~= v.deep_view().take(i as int),
        decreases v.len() - i,
    {
        let s = v[i].clone();
        let ghost before = out.deep_view();
        out.push(s);
        assert(out.deep_view() =~= before.push(v[i as int]@));
        assert(v.deep_view().take(i + 1) =~= v.deep_view().take(i as int).push(v[i as int]@));
        i = i + 1;
    }
    assert(v.deep_view().take(v.len() as int) =~= v.deep_view());
    out
}

/// A copy of an optional list of strings.
pub fn copy_opt_strings(o: &Option<Vec<String>>) -> (out: Option<Vec<String>>)
    ensures
        out.deep_view() == o.deep_view(),
{
    match o {
        Some(v) => Some(copy_strings(v)),
        None => None,
    }
}

/// Appends the characters of `s`.
pub fn append_str(out: &mut Vec<char>, s: &str)
    ensures
        final(out)@ == old(out)@ + s@,
{
    let v = chars_of(s);
    let mut i: usize = 0;
    while i < v.len()
        invariant
            i <= v.len(),
            v@ == s@,
            out@ == old(out)@ + v@.take(i as int),
        decreases v.len() - i,
    {
        assert(v@.take(i + 1) =~= v@.take(i as int).push(v@[i as int]));
        out.push(v[i]);
        i = i + 1;
    }
    assert(v@.take(v.len() as int) =~= v@);
}

/// A trimmed text that is not empty begins and ends with a character that is
/// not white space.
pub proof fn lemma_trim_edges(s: Seq<char>)
    ensures
        trim_ws(s).len() > 0 ==> !is_white_space(trim_ws(s)[0]) && !is_white_space(
            trim_ws(s).last(),
        ),
{
    lemma_trim_start_edge(s);
    lemma_trim_end_keeps(trim_start_ws(s));
}

/// What `trim_start_ws` leaves does not begin with white space.
proof fn lemma_trim_start_edge(s: Seq<char>)
    ensures
        trim_start_ws(s).len() > 0 ==> !is_white_space(trim_start_ws(s)[0]),
    decreases s.len(),
{
    if s.len() > 0 && is_white_space(s[0]) {
        lemma_trim_start_edge(s.drop_first());
    }
}

/// `trim_end_ws` keeps a prefix, and what it leaves does not end with white
/// space; a text that did not begin with white space still does not.
proof fn lemma_trim_end_keeps(s: Seq<char>)
    ensures
        trim_end_ws(s).len() <= s.len(),
        trim_end_ws(s) == s.take(trim_end_ws(s).len() as int),
        trim_end_ws(s).len() > 0 ==> !is_white_space(trim_end_ws(s).last()),
    decreases s.len(),
{
    if s.len() > 0 && is_white_space(s.last()) {
        lemma_trim_end_keeps(s.drop_last());
        assert(s.drop_last().take(trim_end_ws(s).len() as int) =~= s.take(
            trim_end_ws(s).len() as int,
        ));
    } else {
        assert(s.take(s.len() as int) =~= s);
    }
}

/// The items of a comma list (and of any trimmed list) are never blank: each
/// is non-empty and neither begins nor ends with white space.
pub proof fn lemma_trimmed_items(pieces: Seq<Seq<char>>)
    ensures
        forall|i: int|
            0 <= i < trimmed_nonempty(pieces).len() ==> #[trigger] trimmed_nonempty(pieces)[i].len()
                > 0 && !is_white_space(trimmed_nonempty(pieces)[i][0]) && !is_white_space(
                trimmed_nonempty(pieces)[i].last(),
            ),
    decreases pieces.len(),
{
    if pieces.len() > 0 {
        lemma_trimmed_items(pieces.drop_last());
        lemma_trim_edges(pieces.last());
        let rest = trimmed_nonempty(pieces.drop_last());
        let r = trimmed_nonempty(pieces);
        assert forall|i: int| 0 <= i < r.len() implies #[trigger] r[i].len() > 0 && !is_white_space(
            r[i][0],
        ) && !is_white_space(r[i].last()) by {
            if i < rest.len() {
                assert(r[i] == rest[i]);
            } else {
                assert(r[i] == trim_ws(pieces.last()));
            }
        }
    }
}

/// Cutting a text without `sep` leaves it whole, as the piece under way.
pub proof fn lemma_split_no_sep(h: Seq<char>, sep: char)
    requires
        !h.contains(sep),
    ensures
        split_state(h, sep).0.len() == 0,
        split_state(h, sep).1 == h,
    decreases h.len(),
{
    if h.len() > 0 {
        assert(!h.drop_last().contains(sep)) by {
            if h.drop_last().contains(sep) {
                let k = choose|k: int| 0 <= k < h.drop_last().len() && h.drop_last()[k] == sep;
                assert(h[k] == sep);
            }
        }
        lemma_split_no_sep(h.drop_last(), sep);
        assert(h[h.len() - 1] == h.last());
        assert(h.drop_last().push(h.last()) =~= h);
    } else {
        assert(h =~= Seq::<char>::empty());
    }
}

/// Splitting `a`, a separator, then `b` gives the pieces of `a` followed by
/// the pieces of `b`.
pub proof fn lemma_split_concat(a: Seq<char>, b: Seq<char>, sep: char)
    ensures
        split_on(a.push(sep) + b, sep) == split_on(a, sep) + split_on(b, sep),
    decreases b.len(),
{
    let x = a.push(sep) + b;
    if b.len() == 0 {
        assert(x =~= a.push(sep));
        assert(a.push(sep).drop_last() =~= a);
        assert(split_on(b, sep) =~= seq![Seq::<char>::empty()]);
        assert(split_on(x, sep) =~= split_on(a, sep) + split_on(b, sep));
    } else {
        assert(x.drop_last() =~= a.push(sep) + b.drop_last());
        assert(x.last() == b.last());
        lemma_split_concat(a, b.drop_last(), sep);
        lemma_split_state_concat(a, b, sep);
        assert(split_on(x, sep) =~= split_on(a, sep) + split_on(b, sep));
    }
}

/// The split state of `a`, a separator, then `b`: the pieces of `a`, then
/// those of `b`, with `b`'s unfinished piece still under way.
proof fn lemma_split_state_concat(a: Seq<char>, b: Seq<char>, sep: char)
    ensures
        split_state(a.push(sep) + b, sep) == (split_on(a, sep) + split_state(b, sep).0, split_state(
            b,
            sep,
        ).1),
    decreases b.len(),
{
    let x = a.push(sep) + b;
    if b.len() == 0 {
        assert(x =~= a.push(sep));
        assert(a.push(sep).drop_last() =~= a);
        assert(split_on(a, sep) + split_state(b, sep).0 =~= split_on(a, sep));
    } else {
        assert(x.drop_last() =~= a.push(sep) + b.drop_last());
        assert(x.last() == b.last());
        lemma_split_state_concat(a, b.drop_last(), sep);
        let st = split_state(b.drop_last(), sep);
        if b.last() == sep {
            assert((split_on(a, sep) + st.0).push(st.1) =~= split_on(a, sep) + st.0.push(st.1));
        }
    }
}

/// Trimming and dropping blanks piece by piece: the result for two lists is
/// the results for each, one after the other.
pub proof fn lemma_trimmed_concat(x: Seq<Seq<char>>, y: Seq<Seq<char>>)
    ensures
        trimmed_nonempty(x + y) == trimmed_nonempty(x) + trimmed_nonempty(y),
    decreases y.len(),
{
    if y.len() == 0 {
        assert(x + y =~= x);
        assert(trimmed_nonempty(x) + trimmed_nonempty(y) =~= trimmed_nonempty(x));
    } else {
        assert((x + y).drop_last() =~= x + y.drop_last());
        assert((x + y).last() == y.last());
        lemma_trimmed_concat(x, y.drop_last());
        let t = trim_ws(y.last());
        if t.len() > 0 {
            assert((trimmed_nonempty(x) + trimmed_nonempty(y.drop_last())).push(t)
                =~= trimmed_nonempty(x) + trimmed_nonempty(y.drop_last()).push(t));
        }
    }
}

/// A comma list is made item by item: text without a comma is one item,
/// trimmed (none when it is blank), and a comma between two texts joins their
/// lists.
pub proof fn lemma_comma_list_items(a: Seq<char>, b: Seq<char>)
    ensures
        !a.contains(',') ==> comma_list(a) == (if trim_ws(a).len() > 0 {
            seq![trim_ws(a)]
        } else {
            Seq::<Seq<char>>::empty()
        }),
        comma_list(a.push(',') + b) == comma_list(a) + comma_list(b),
{
    if !a.contains(',') {
        lemma_split_no_sep(a, ',');
        let one: Seq<Seq<char>> = seq![a];
        assert(split_on(a, ',') =~= one);
        assert(one.drop_last() =~= Seq::<Seq<char>>::empty());
        assert(one.last() == a);
        assert(trimmed_nonempty(Seq::<Seq<char>>::empty()) =~= Seq::<Seq<char>>::empty());
        if trim_ws(a).len() > 0 {
            assert(Seq::<Seq<char>>::empty().push(trim_ws(a)) =~= seq![trim_ws(a)]);
        }
    }
    lemma_split_concat(a, b, ',');
    lemma_trimmed_concat(split_on(a, ','), split_on(b, ','));
}

} // verus!
