//! Character-sequence utilities shared by the configuration codec: whitespace
//! trimming, separator splitting and joining, and decimal numerals, each with
//! a specification-level definition that the executable helpers are proved
//! against.
use vstd::prelude::*;

verus! {

/// Whitespace characters recognized when trimming a line of configuration
/// text: space, tab, and carriage return (so CRLF documents parse cleanly).
pub open spec fn is_ws(c: char) -> bool {
    c == ' ' || c == '\t' || c == '\r'
}

pub open spec fn trim_start(s: Seq<char>) -> Seq<char>
    decreases s.len(),
{
    if s.len() == 0 {
        s
    } else if is_ws(s[0]) {
        trim_start(s.drop_first())
    } else {
        s
    }
}

pub open spec fn trim_end(s: Seq<char>) -> Seq<char>
    decreases s.len(),
{
    if s.len() == 0 {
        s
    } else if is_ws(s.last()) {
        trim_end(s.drop_last())
    } else {
        s
    }
}

/// A line with surrounding whitespace removed.
pub open spec fn trim(s: Seq<char>) -> Seq<char> {
    trim_end(trim_start(s))
}

/// Index of the first occurrence of `c` in `s`, or -1 when absent.
pub open spec fn find_char(s: Seq<char>, c: char) -> int
    decreases s.len(),
{
    if s.len() == 0 {
        -1
    } else if s[0] == c {
        0
    } else {
        let r = find_char(s.drop_first(), c);
        if r < 0 {
            -1
        } else {
            r + 1
        }
    }
}

pub proof fn lemma_find_char_props(s: Seq<char>, c: char)
    ensures
        find_char(s, c) >= 0 ==> find_char(s, c) < s.len() && s[find_char(s, c)] == c
            && (forall|k: int| 0 <= k < find_char(s, c) ==> s[k] != c),
        find_char(s, c) < 0 ==> forall|k: int| 0 <= k < s.len() ==> s[k] != c,
    decreases s.len(),
{
    if s.len() == 0 {
    } else if s[0] == c {
    } else {
        lemma_find_char_props(s.drop_first(), c);
        assert(forall|k: int| 1 <= k < s.len() ==> s[k] == s.drop_first()[k - 1]);
    }
}

pub proof fn lemma_find_char_at(s: Seq<char>, c: char, j: int)
    requires
        0 <= j < s.len(),
        s[j] == c,
        forall|k: int| 0 <= k < j ==> s[k] != c,
    ensures
        find_char(s, c) == j,
    decreases j,
{
    if j == 0 {
    } else {
        assert(s.drop_first()[j - 1] == s[j]);
        assert(forall|k: int| 0 <= k < j - 1 ==> s.drop_first()[k] == s[k + 1]);
        lemma_find_char_at(s.drop_first(), c, j - 1);
    }
}

pub proof fn lemma_find_char_none(s: Seq<char>, c: char)
    requires
        forall|k: int| 0 <= k < s.len() ==> s[k] != c,
    ensures
        find_char(s, c) == -1,
    decreases s.len(),
{
    if s.len() == 0 {
    } else {
        assert(forall|k: int| 0 <= k < s.len() - 1 ==> s.drop_first()[k] == s[k + 1]);
        lemma_find_char_none(s.drop_first(), c);
    }
}

/// The chunks of `s` delimited by `sep`; always at least one chunk, and an
/// empty final chunk when `s` ends with `sep`.
pub open spec fn split_char(s: Seq<char>, sep: char) -> Seq<Seq<char>>
    decreases s.len(),
    via split_char_decreases
{
    let i = find_char(s, sep);
    if i < 0 {
        seq![s]
    } else {
        seq![s.subrange(0, i)] + split_char(s.subrange(i + 1, s.len() as int), sep)
    }
}

#[via_fn]
proof fn split_char_decreases(s: Seq<char>, sep: char) {
    lemma_find_char_props(s, sep);
}

/// The chunks glued back together with `sep` between consecutive chunks.
pub open spec fn join_seqs(parts: Seq<Seq<char>>, sep: Seq<char>) -> Seq<char>
    decreases parts.len(),
{
    if parts.len() == 0 {
        Seq::empty()
    } else if parts.len() == 1 {
        parts[0]
    } else {
        parts[0] + sep + join_seqs(parts.drop_first(), sep)
    }
}

/// Splitting undoes joining, provided no chunk contains the separator.
pub proof fn lemma_split_join(parts: Seq<Seq<char>>, sep: char)
    requires
        parts.len() >= 1,
        forall|i: int| 0 <= i < parts.len() ==> !parts[i].contains(sep),
    ensures
        split_char(join_seqs(parts, seq![sep]), sep) == parts,
    decreases parts.len(),
{
    let j = join_seqs(parts, seq![sep]);
    if parts.len() == 1 {
        assert(j == parts[0]);
        assert(forall|k: int| 0 <= k < j.len() ==> j[k] != sep);
        lemma_find_char_none(j, sep);
        assert(seq![j] =~= parts);
    } else {
        let a = parts[0];
        let rest = parts.drop_first();
        assert(j == a + seq![sep] + join_seqs(rest, seq![sep]));
        assert(j[a.len() as int] == sep);
        assert(forall|k: int| 0 <= k < a.len() ==> j[k] == a[k]);
        assert(forall|k: int| 0 <= k < a.len() ==> a[k] != sep) by {
            assert(forall|k: int| 0 <= k < a.len() ==> a.contains(a[k]));
        }
        lemma_find_char_at(j, sep, a.len() as int);
        assert(j.subrange(0, a.len() as int) =~= a);
        assert(j.subrange(a.len() as int + 1, j.len() as int) =~= join_seqs(rest, seq![sep]));
        lemma_split_join(rest, sep);
        assert(split_char(j, sep) =~= parts);
    }
}

/// With a trailing separator appended, splitting yields the chunks followed
/// by one empty chunk: the shape of a document whose last line ends in a
/// newline.
pub proof fn lemma_split_join_trailing(parts: Seq<Seq<char>>, sep: char)
    requires
        parts.len() >= 1,
        forall|i: int| 0 <= i < parts.len() ==> !parts[i].contains(sep),
    ensures
        split_char(join_seqs(parts, seq![sep]) + seq![sep], sep) == parts + seq![Seq::<char>::empty()],
    decreases parts.len(),
{
    let j = join_seqs(parts, seq![sep]) + seq![sep];
    let a = parts[0];
    assert(forall|k: int| 0 <= k < a.len() ==> a[k] != sep) by {
        assert(forall|k: int| 0 <= k < a.len() ==> a.contains(a[k]));
    }
    if parts.len() == 1 {
        assert(j == a + seq![sep]);
        assert(j[a.len() as int] == sep);
        assert(forall|k: int| 0 <= k < a.len() ==> j[k] == a[k]);
        lemma_find_char_at(j, sep, a.len() as int);
        assert(j.subrange(0, a.len() as int) =~= a);
        assert(j.subrange(a.len() as int + 1, j.len() as int) =~= Seq::<char>::empty());
        lemma_find_char_none(Seq::<char>::empty(), sep);
        assert(split_char(Seq::<char>::empty(), sep) == seq![Seq::<char>::empty()]);
        assert(parts =~= seq![a]);
        assert(split_char(j, sep) =~= parts + seq![Seq::<char>::empty()]);
    } else {
        let rest = parts.drop_first();
        assert(j == a + seq![sep] + (join_seqs(rest, seq![sep]) + seq![sep])) by {
            assert(join_seqs(parts, seq![sep]) == a + seq![sep] + join_seqs(rest, seq![sep]));
            assert(a + seq![sep] + join_seqs(rest, seq![sep]) + seq![sep]
                =~= a + seq![sep] + (join_seqs(rest, seq![sep]) + seq![sep]));
        }
        assert(j[a.len() as int] == sep);
        assert(forall|k: int| 0 <= k < a.len() ==> j[k] == a[k]);
        lemma_find_char_at(j, sep, a.len() as int);
        assert(j.subrange(0, a.len() as int) =~= a);
        assert(j.subrange(a.len() as int + 1, j.len() as int) =~= join_seqs(rest, seq![sep]) + seq![sep]);
        lemma_split_join_trailing(rest, sep);
        assert(split_char(j, sep) =~= parts + seq![Seq::<char>::empty()]);
    }
}

/// A chunk of a split never contains the separator.
pub proof fn lemma_split_chunks_free(s: Seq<char>, sep: char)
    ensures
        split_char(s, sep).len() >= 1,
        forall|i: int| 0 <= i < split_char(s, sep).len() ==> !(#[trigger] split_char(s, sep)[i]).contains(sep),
    decreases s.len(),
{
    lemma_find_char_props(s, sep);
    let i = find_char(s, sep);
    if i < 0 {
        assert(forall|k: int| 0 <= k < s.len() ==> s[k] != sep);
        assert(!s.contains(sep));
    } else {
        let head = s.subrange(0, i);
        assert(forall|k: int| 0 <= k < head.len() ==> head[k] != sep);
        assert(!head.contains(sep));
        lemma_split_chunks_free(s.subrange(i + 1, s.len() as int), sep);
    }
}

// ------------------------------------------------------------------
// Decimal numerals
// ------------------------------------------------------------------

pub open spec fn is_digit(c: char) -> bool {
    48 <= c as int && c as int <= 57
}

pub open spec fn digit_val(c: char) -> int {
    c as int - 48
}

pub open spec fn all_digits(s: Seq<char>) -> bool {
    forall|i: int| 0 <= i < s.len() ==> is_digit(#[trigger] s[i])
}

/// Value of a digit string read most-significant first.
pub open spec fn digits_value(s: Seq<char>) -> int
    decreases s.len(),
{
    if s.len() == 0 {
        0
    } else {
        digits_value(s.drop_last()) * 10 + digit_val(s.last())
    }
}

/// What a ListenPort value means: a non-empty, all-digit string whose value
/// fits a 16-bit port; anything else is best-effort absent.
pub open spec fn parse_u16_spec(s: Seq<char>) -> Option<u16> {
    if s.len() >= 1 && all_digits(s) && digits_value(s) <= 65535 {
        Some(digits_value(s) as u16)
    } else {
        None
    }
}

pub open spec fn digit_char(d: int) -> char {
    ((d + 48) as u8) as char
}

/// Decimal numeral of a non-negative number, no leading zeros.
/// A decimal digit's character has the digit's value.
pub proof fn lemma_digit_char_val(d: int)
    requires
        0 <= d < 10,
    ensures
        is_digit(digit_char(d)),
        digit_val(digit_char(d)) == d,
{
    assert(((d + 48) as u8) as int == d + 48);
    assert((((d + 48) as u8) as char) as int == ((d + 48) as u8) as int);
}

pub open spec fn dec_of(n: int) -> Seq<char>
    decreases n,
{
    if n < 10 {
        seq![digit_char(n)]
    } else {
        dec_of(n / 10) + seq![digit_char(n % 10)]
    }
}

pub proof fn lemma_dec_of_digits(n: int)
    requires
        0 <= n,
    ensures
        dec_of(n).len() >= 1,
        all_digits(dec_of(n)),
    decreases n,
{
    if n < 10 {
        lemma_digit_char_val(n);
    } else {
        lemma_dec_of_digits(n / 10);
        assert(0 <= n % 10 < 10);
        lemma_digit_char_val(n % 10);
    }
}

/// Reading a rendered numeral back gives the number it came from.
pub proof fn lemma_dec_of_value(n: int)
    requires
        0 <= n,
    ensures
        digits_value(dec_of(n)) == n,
    decreases n,
{
    if n < 10 {
        lemma_digit_char_val(n);
        let d = seq![digit_char(n)];
        assert(dec_of(n) == d);
        assert(d.drop_last() =~= Seq::<char>::empty());
        assert(d.last() == digit_char(n));
        assert(digits_value(Seq::<char>::empty()) == 0);
        assert(digits_value(d) == digits_value(d.drop_last()) * 10 + digit_val(d.last()));
    } else {
        lemma_dec_of_value(n / 10);
        let a = dec_of(n / 10);
        let c = digit_char(n % 10);
        assert((a + seq![c]).drop_last() =~= a);
        assert((a + seq![c]).last() == c);
        lemma_digit_char_val(n % 10);
        vstd::arithmetic::div_mod::lemma_fundamental_div_mod(n, 10);
    }
}

/// A port numeral round-trips through the lenient ListenPort reader.
pub proof fn lemma_dec_of_round_trip(n: u16)
    ensures
        parse_u16_spec(dec_of(n as int)) == Some(n),
{
    lemma_dec_of_digits(n as int);
    lemma_dec_of_value(n as int);
}

/// A prefix of a digit string never exceeds the whole string's value.
pub proof fn lemma_digits_value_mono(s: Seq<char>, i: int)
    requires
        0 <= i <= s.len(),
        all_digits(s),
    ensures
        0 <= digits_value(s.subrange(0, i)),
        digits_value(s.subrange(0, i)) <= digits_value(s),
    decreases s.len() - i,
{
    lemma_digits_value_nonneg(s.subrange(0, i));
    if i == s.len() {
        assert(s.subrange(0, i) =~= s);
    } else {
        lemma_digits_value_mono(s, i + 1);
        let p = s.subrange(0, i + 1);
        assert(p.drop_last() =~= s.subrange(0, i));
        assert(p.last() == s[i]);
        lemma_digits_value_nonneg(s.subrange(0, i));
    }
}

pub proof fn lemma_digits_value_nonneg(s: Seq<char>)
    requires
        all_digits(s),
    ensures
        digits_value(s) >= 0,
    decreases s.len(),
{
    if s.len() == 0 {
    } else {
        assert(all_digits(s.drop_last())) by {
            assert(forall|k: int| 0 <= k < s.len() - 1 ==> s.drop_last()[k] == s[k]);
        }
        lemma_digits_value_nonneg(s.drop_last());
    }
}

// ------------------------------------------------------------------
// Executable helpers
// ------------------------------------------------------------------

/// Relies on String::push from std: appends exactly one character.
#[verifier::external_body]
pub(crate) fn push_char(s: &mut String, c: char)
    ensures
        final(s)@ == old(s)@ + seq![c],
{
    s.push(c);
}

/// The characters of a string slice, as a vector.
pub fn chars_of(s: &str) -> (v: Vec<char>)
    ensures
        v@ == s@,
{
    let n = s.unicode_len();
    let mut v: Vec<char> = Vec::new();
    let mut i: usize = 0;
    while i < n
        invariant
            i <= n,
            n == s@.len(),
            v@ == s@.subrange(0, i as int),
        decreases n - i,
    {
        let c = s.get_char(i);
        v.push(c);
        i = i + 1;
        proof {
            assert(v@ =~= s@.subrange(0, i as int));
        }
    }
    proof {
        assert(v@ =~= s@);
    }
    v
}

/// A string holding exactly the given characters.
pub fn string_from_chars(v: &Vec<char>) -> (s: String)
    ensures
        s@ == v@,
{
    let mut s = String::new();
    let mut i: usize = 0;
    while i < v.len()
        invariant
            i <= v.len(),
            s@ == v@.subrange(0, i as int),
        decreases v.len() - i,
    {
        push_char(&mut s, v[i]);
        i = i + 1;
        proof {
            assert(s@ =~= v@.subrange(0, i as int));
        }
    }
    proof {
        assert(s@ =~= v@);
    }
    s
}

/// Copy of the characters in positions `from..to`.
pub fn sub_chars(v: &Vec<char>, from: usize, to: usize) -> (r: Vec<char>)
    requires
        from <= to <= v@.len(),
    ensures
        r@ == v@.subrange(from as int, to as int),
{
    let mut r: Vec<char> = Vec::new();
    let mut i: usize = from;
    while i < to
        invariant
            from <= i <= to <= v@.len(),
            r@ == v@.subrange(from as int, i as int),
        decreases to - i,
    {
        r.push(v[i]);
        i = i + 1;
        proof {
            assert(r@ =~= v@.subrange(from as int, i as int));
        }
    }
    r
}

pub open spec fn views_of(parts: Seq<Vec<char>>) -> Seq<Seq<char>> {
    parts.map_values(|p: Vec<char>| p@)
}

/// Split on a separator character, exactly as `split_char` describes.
pub fn split_chars(v: &Vec<char>, sep: char) -> (parts: Vec<Vec<char>>)
    ensures
        views_of(parts@) == split_char(v@, sep),
{
    let mut parts: Vec<Vec<char>> = Vec::new();
    let mut start: usize = 0;
    let mut i: usize = 0;
    proof {
        assert(v@.subrange(0, v@.len() as int) =~= v@);
        assert(views_of(parts@) =~= Seq::<Seq<char>>::empty());
        assert(views_of(parts@) + split_char(v@, sep) =~= split_char(v@, sep));
    }
    while i < v.len()
        invariant
            start <= i <= v@.len(),
            forall|k: int| start <= k < i ==> v@[k] != sep,
            split_char(v@, sep) == views_of(parts@) + split_char(
                v@.subrange(start as int, v@.len() as int),
                sep,
            ),
        decreases v.len() - i,
    {
        if v[i] == sep {
            let chunk = sub_chars(v, start, i);
            proof {
                let tail = v@.subrange(start as int, v@.len() as int);
                assert(tail[i - start] == sep);
                assert(forall|k: int| 0 <= k < i - start ==> tail[k] == v@[k + start]);
                lemma_find_char_at(tail, sep, i - start);
                assert(tail.subrange(0, i - start) =~= v@.subrange(start as int, i as int));
                assert(tail.subrange(i - start + 1, tail.len() as int) =~= v@.subrange(
                    i + 1,
                    v@.len() as int,
                ));
                assert(views_of(parts@.push(chunk)) =~= views_of(parts@) + seq![chunk@]);
                assert(views_of(parts@) + split_char(tail, sep) =~= views_of(parts@.push(chunk))
                    + split_char(v@.subrange(i + 1, v@.len() as int), sep));
            }
            parts.push(chunk);
            start = i + 1;
        }
        i = i + 1;
    }
    let chunk = sub_chars(v, start, v.len());
    proof {
        let tail = v@.subrange(start as int, v@.len() as int);
        assert(forall|k: int| 0 <= k < tail.len() ==> tail[k] == v@[k + start]);
        lemma_find_char_none(tail, sep);
        assert(split_char(tail, sep) == seq![tail]);
        assert(views_of(parts@.push(chunk)) =~= views_of(parts@) + seq![chunk@]);
        assert(chunk@ == tail);
        assert(views_of(parts@) + split_char(tail, sep) =~= views_of(parts@.push(chunk)));
    }
    parts.push(chunk);
    parts
}

/// Trim surrounding whitespace, exactly as `trim` describes.
pub fn trim_chars(v: &Vec<char>) -> (r: Vec<char>)
    ensures
        r@ == trim(v@),
{
    let mut lo: usize = 0;
    while lo < v.len() && is_ws_exec(v[lo])
        invariant
            lo <= v@.len(),
            forall|k: int| 0 <= k < lo ==> is_ws(v@[k]),
        decreases v.len() - lo,
    {
        lo = lo + 1;
    }
    proof {
        lemma_trim_start_skip(v@, lo as int);
    }
    if lo == v.len() {
        let r: Vec<char> = Vec::new();
        proof {
            assert(trim_start(v@) =~= Seq::<char>::empty());
            assert(trim(v@) =~= Seq::<char>::empty());
        }
        return r;
    }
    let mut hi: usize = v.len();
    while hi > lo + 1 && is_ws_exec(v[hi - 1])
        invariant
            lo < hi <= v@.len(),
            forall|k: int| hi <= k < v@.len() ==> is_ws(v@[k]),
            !is_ws(v@[lo as int]),
        decreases hi,
    {
        hi = hi - 1;
    }
    proof {
        let t = trim_start(v@);
        assert(t == v@.subrange(lo as int, v@.len() as int));
        assert(forall|k: int| 0 <= k < t.len() ==> t[k] == v@[k + lo]);
        lemma_trim_end_take(t, hi - lo);
        assert(t.subrange(0, hi - lo) =~= v@.subrange(lo as int, hi as int));
    }
    sub_chars(v, lo, hi)
}

fn is_ws_exec(c: char) -> (b: bool)
    ensures
        b == is_ws(c),
{
    c == ' ' || c == '\t' || c == '\r'
}

pub proof fn lemma_trim_start_skip(s: Seq<char>, i: int)
    requires
        0 <= i <= s.len(),
        forall|k: int| 0 <= k < i ==> is_ws(s[k]),
        i == s.len() || !is_ws(s[i]),
    ensures
        trim_start(s) == s.subrange(i, s.len() as int),
    decreases i,
{
    if i == 0 {
        assert(s.subrange(0, s.len() as int) =~= s);
    } else {
        assert(is_ws(s[0]));
        assert(forall|k: int| 0 <= k < s.len() - 1 ==> s.drop_first()[k] == s[k + 1]);
        lemma_trim_start_skip(s.drop_first(), i - 1);
        assert(s.drop_first().subrange(i - 1, s.drop_first().len() as int) =~= s.subrange(
            i,
            s.len() as int,
        ));
    }
}

pub proof fn lemma_trim_end_take(s: Seq<char>, j: int)
    requires
        0 <= j <= s.len(),
        forall|k: int| j <= k < s.len() ==> is_ws(s[k]),
        j == 0 || !is_ws(s[j - 1]),
    ensures
        trim_end(s) == s.subrange(0, j),
    decreases s.len() - j,
{
    if j == s.len() {
        if s.len() == 0 {
            assert(s.subrange(0, 0) =~= s);
        } else {
            assert(!is_ws(s.last()));
            assert(s.subrange(0, j) =~= s);
        }
    } else {
        assert(is_ws(s.last()));
        assert(forall|k: int| 0 <= k < s.len() - 1 ==> s.drop_last()[k] == s[k]);
        lemma_trim_end_take(s.drop_last(), j);
        assert(s.drop_last().subrange(0, j) =~= s.subrange(0, j));
    }
}

/// Leaving off surrounding whitespace twice changes nothing.
pub proof fn lemma_trim_idempotent(s: Seq<char>)
    ensures
        trim(trim(s)) == trim(s),
{
    lemma_trim_shape(s);
    let t = trim(s);
    if t.len() == 0 {
        lemma_trim_start_skip(t, 0);
        lemma_trim_end_take(t, 0);
    } else {
        lemma_trim_start_skip(t, 0);
        assert(t.subrange(0, t.len() as int) =~= t);
        lemma_trim_end_take(t, t.len() as int);
    }
}

/// A trimmed string is empty or has non-whitespace characters at both ends.
pub proof fn lemma_trim_shape(s: Seq<char>)
    ensures
        trim(s).len() > 0 ==> !is_ws(trim(s)[0]) && !is_ws(trim(s).last()),
{
    lemma_trim_start_shape(s);
    lemma_trim_end_shape(trim_start(s));
}

/// A string whose ends are not whitespace is already trimmed.
pub proof fn lemma_trim_noop(s: Seq<char>)
    requires
        s.len() > 0,
        !is_ws(s[0]),
        !is_ws(s.last()),
    ensures
        trim(s) == s,
{
    lemma_trim_start_skip(s, 0);
    assert(s.subrange(0, s.len() as int) =~= s);
    lemma_trim_end_take(s, s.len() as int);
}

/// Trimming never introduces a character.
pub proof fn lemma_trim_no(s: Seq<char>, a: char)
    requires
        !s.contains(a),
    ensures
        !trim(s).contains(a),
{
    lemma_trim_start_no(s, a);
    lemma_trim_end_no(trim_start(s), a);
}

proof fn lemma_trim_start_no(s: Seq<char>, a: char)
    requires
        !s.contains(a),
    ensures
        !trim_start(s).contains(a),
    decreases s.len(),
{
    assert(forall|k: int| 0 <= k < s.len() ==> s[k] != a);
    if s.len() == 0 {
    } else if is_ws(s[0]) {
        assert(forall|k: int| 0 <= k < s.len() - 1 ==> s.drop_first()[k] == s[k + 1]);
        assert(forall|k: int| 0 <= k < s.drop_first().len() ==> s.drop_first()[k] != a);
        assert(!s.drop_first().contains(a));
        lemma_trim_start_no(s.drop_first(), a);
    } else {
    }
}

proof fn lemma_trim_end_no(s: Seq<char>, a: char)
    requires
        !s.contains(a),
    ensures
        !trim_end(s).contains(a),
    decreases s.len(),
{
    assert(forall|k: int| 0 <= k < s.len() ==> s[k] != a);
    if s.len() == 0 {
    } else if is_ws(s.last()) {
        assert(forall|k: int| 0 <= k < s.len() - 1 ==> s.drop_last()[k] == s[k]);
        assert(!s.drop_last().contains(a));
        lemma_trim_end_no(s.drop_last(), a);
    } else {
    }
}

/// Splitting never introduces a character either.
pub proof fn lemma_split_chunks_no(s: Seq<char>, sep: char, a: char)
    requires
        !s.contains(a),
    ensures
        forall|i: int| 0 <= i < split_char(s, sep).len() ==> !(#[trigger] split_char(s, sep)[i]).contains(a),
    decreases s.len(),
{
    assert(forall|k: int| 0 <= k < s.len() ==> s[k] != a);
    lemma_find_char_props(s, sep);
    let i = find_char(s, sep);
    let sp = split_char(s, sep);
    if i < 0 {
        assert(sp == seq![s]);
        assert(sp[0] == s);
    } else {
        let head = s.subrange(0, i);
        assert(forall|k: int| 0 <= k < head.len() ==> head[k] != a);
        assert(!head.contains(a));
        let tail = s.subrange(i + 1, s.len() as int);
        assert(forall|k: int| 0 <= k < tail.len() ==> tail[k] != a);
        assert(!tail.contains(a));
        lemma_split_chunks_no(tail, sep, a);
        assert(sp == seq![head] + split_char(tail, sep));
        assert(sp[0] == head);
        assert(forall|k: int| 1 <= k < sp.len() ==> sp[k] == split_char(tail, sep)[k - 1]);
    }
}

/// Joining undoes splitting, unconditionally.
pub proof fn lemma_join_split(s: Seq<char>, sep: char)
    ensures
        join_seqs(split_char(s, sep), seq![sep]) == s,
    decreases s.len(),
{
    lemma_find_char_props(s, sep);
    let i = find_char(s, sep);
    if i < 0 {
    } else {
        let head = s.subrange(0, i);
        let tail = s.subrange(i + 1, s.len() as int);
        lemma_join_split(tail, sep);
        lemma_split_chunks_free(tail, sep);
        assert(split_char(tail, sep).len() >= 1);
        assert(split_char(s, sep).drop_first() =~= split_char(tail, sep));
        assert(join_seqs(split_char(s, sep), seq![sep]) == head + seq![sep] + join_seqs(
            split_char(tail, sep),
            seq![sep],
        ));
        assert(head + seq![sep] + tail =~= s);
    }
}

/// Appending one more chunk to a join.
pub proof fn lemma_join_push(parts: Seq<Seq<char>>, sep: Seq<char>, x: Seq<char>)
    ensures
        join_seqs(parts.push(x), sep) == if parts.len() == 0 {
            x
        } else {
            join_seqs(parts, sep) + sep + x
        },
    decreases parts.len(),
{
    if parts.len() == 0 {
        assert(parts.push(x) =~= seq![x]);
    } else if parts.len() == 1 {
        assert(parts.push(x).drop_first() =~= seq![x]);
        assert(join_seqs(seq![x], sep) == x);
        assert(parts.push(x)[0] == parts[0]);
        assert(join_seqs(parts.push(x), sep) == parts[0] + sep + x);
    } else {
        assert(parts.push(x).drop_first() =~= parts.drop_first().push(x));
        lemma_join_push(parts.drop_first(), sep, x);
        assert(parts[0] + sep + (join_seqs(parts.drop_first(), sep) + sep + x) =~= (parts[0] + sep
            + join_seqs(parts.drop_first(), sep)) + sep + x);
    }
}

// ------------------------------------------------------------------
// Lines of a document
// ------------------------------------------------------------------

/// The text of a sequence of lines, each terminated by a newline.
pub open spec fn lines_text(lines: Seq<Seq<char>>) -> Seq<char>
    decreases lines.len(),
{
    if lines.len() == 0 {
        Seq::empty()
    } else {
        lines[0] + seq!['\n'] + lines_text(lines.drop_first())
    }
}

pub proof fn lemma_lines_text_concat(a: Seq<Seq<char>>, b: Seq<Seq<char>>)
    ensures
        lines_text(a + b) == lines_text(a) + lines_text(b),
    decreases a.len(),
{
    if a.len() == 0 {
        assert(a + b =~= b);
        assert(lines_text(a) + lines_text(b) =~= lines_text(b));
    } else {
        assert((a + b).drop_first() =~= a.drop_first() + b);
        assert((a + b)[0] == a[0]);
        lemma_lines_text_concat(a.drop_first(), b);
        assert(a[0] + seq!['\n'] + (lines_text(a.drop_first()) + lines_text(b)) =~= (a[0]
            + seq!['\n'] + lines_text(a.drop_first())) + lines_text(b));
    }
}

/// Newline-terminated lines are the join of the lines with a trailing newline.
pub proof fn lemma_lines_text_join(lines: Seq<Seq<char>>)
    requires
        lines.len() >= 1,
    ensures
        lines_text(lines) == join_seqs(lines, seq!['\n']) + seq!['\n'],
    decreases lines.len(),
{
    if lines.len() == 1 {
        assert(lines_text(lines.drop_first()) =~= Seq::<char>::empty());
        assert(lines[0] + seq!['\n'] + Seq::<char>::empty() =~= lines[0] + seq!['\n']);
    } else {
        lemma_lines_text_join(lines.drop_first());
        assert(lines[0] + seq!['\n'] + (join_seqs(lines.drop_first(), seq!['\n']) + seq!['\n'])
            =~= (lines[0] + seq!['\n'] + join_seqs(lines.drop_first(), seq!['\n'])) + seq!['\n']);
    }
}

/// Splitting newline-terminated lines on the newline gives back the lines,
/// plus one final empty chunk.
pub proof fn lemma_lines_text_split(lines: Seq<Seq<char>>)
    requires
        lines.len() >= 1,
        forall|i: int| 0 <= i < lines.len() ==> !(#[trigger] lines[i]).contains('\n'),
    ensures
        split_char(lines_text(lines), '\n') == lines + seq![Seq::<char>::empty()],
{
    lemma_lines_text_join(lines);
    lemma_split_join_trailing(lines, '\n');
}


/// Unrolled text of a three-line block.
pub proof fn lemma_lines_text3(a: Seq<char>, b: Seq<char>, c: Seq<char>)
    ensures
        lines_text(seq![a, b, c]) == a + seq!['\n'] + (b + seq!['\n'] + (c + seq!['\n'])),
{
    let l = seq![a, b, c];
    assert(l.drop_first() =~= seq![b, c]);
    assert(seq![b, c].drop_first() =~= seq![c]);
    assert(seq![c].drop_first() =~= Seq::<Seq<char>>::empty());
    assert(lines_text(Seq::<Seq<char>>::empty()) == Seq::<char>::empty());
    assert(lines_text(seq![c]) == c + seq!['\n'] + lines_text(Seq::<Seq<char>>::empty()));
    assert(lines_text(seq![c]) =~= c + seq!['\n']);
    assert(lines_text(seq![b, c]) == b + seq!['\n'] + lines_text(seq![c]));
    assert(lines_text(l) == a + seq!['\n'] + lines_text(seq![b, c]));
}

/// Unrolled text of a four-line block.
pub proof fn lemma_lines_text4(a: Seq<char>, b: Seq<char>, c: Seq<char>, d: Seq<char>)
    ensures
        lines_text(seq![a, b, c, d]) == a + seq!['\n'] + (b + seq!['\n'] + (c + seq!['\n'] + (d
            + seq!['\n']))),
{
    let l = seq![a, b, c, d];
    assert(l.drop_first() =~= seq![b, c, d]);
    assert(seq![b, c, d].drop_first() =~= seq![c, d]);
    assert(seq![c, d].drop_first() =~= seq![d]);
    assert(seq![d].drop_first() =~= Seq::<Seq<char>>::empty());
    assert(lines_text(Seq::<Seq<char>>::empty()) == Seq::<char>::empty());
    assert(lines_text(seq![d]) == d + seq!['\n'] + lines_text(Seq::<Seq<char>>::empty()));
    assert(lines_text(seq![d]) =~= d + seq!['\n']);
    assert(lines_text(seq![c, d]) == c + seq!['\n'] + lines_text(seq![d]));
    assert(lines_text(seq![b, c, d]) == b + seq!['\n'] + lines_text(seq![c, d]));
    assert(lines_text(l) == a + seq!['\n'] + lines_text(seq![b, c, d]));
}

// ------------------------------------------------------------------
// Prefix and equality tests
// ------------------------------------------------------------------

pub open spec fn starts_with(s: Seq<char>, p: Seq<char>) -> bool {
    s.len() >= p.len() && s.subrange(0, p.len() as int) == p
}

pub fn str_starts_with(s: &str, p: &str) -> (b: bool)
    ensures
        b == starts_with(s@, p@),
{
    let n = p.unicode_len();
    let m = s.unicode_len();
    if n > m {
        return false;
    }
    let mut i: usize = 0;
    while i < n
        invariant
            i <= n,
            n == p@.len(),
            n <= m == s@.len(),
            forall|k: int| 0 <= k < i ==> s@[k] == p@[k],
        decreases n - i,
    {
        if s.get_char(i) != p.get_char(i) {
            proof {
                assert(s@.subrange(0, n as int)[i as int] != p@[i as int]);
            }
            return false;
        }
        i = i + 1;
    }
    proof {
        assert(s@.subrange(0, n as int) =~= p@);
    }
    true
}

pub fn str_eq(s: &str, p: &str) -> (b: bool)
    ensures
        b == (s@ == p@),
{
    let n = p.unicode_len();
    let m = s.unicode_len();
    if n != m {
        proof {
            assert(s@.len() != p@.len());
        }
        return false;
    }
    let mut i: usize = 0;
    while i < n
        invariant
            i <= n,
            n == p@.len() == s@.len(),
            forall|k: int| 0 <= k < i ==> s@[k] == p@[k],
        decreases n - i,
    {
        if s.get_char(i) != p.get_char(i) {
            return false;
        }
        i = i + 1;
    }
    proof {
        assert(s@ =~= p@);
    }
    true
}

// ------------------------------------------------------------------
// Decimal numerals, executable
// ------------------------------------------------------------------

fn digit_char_exec(d: u16) -> (c: char)
    requires
        d < 10,
    ensures
        c == digit_char(d as int),
{
    ((d as u8) + 48) as char
}

fn push_dec(out: &mut Vec<char>, n: u16)
    ensures
        final(out)@ == old(out)@ + dec_of(n as int),
    decreases n,
{
    if n < 10 {
        out.push(digit_char_exec(n));
        proof {
            assert(out@ =~= old(out)@ + dec_of(n as int));
        }
    } else {
        push_dec(out, n / 10);
        out.push(digit_char_exec(n % 10));
        proof {
            assert(out@ =~= old(out)@ + (dec_of(n as int / 10) + seq![
                digit_char(n as int % 10),
            ]));
        }
    }
}

/// The decimal numeral of a 16-bit number.
pub fn u16_digits(n: u16) -> (v: Vec<char>)
    ensures
        v@ == dec_of(n as int),
{
    let mut v: Vec<char> = Vec::new();
    push_dec(&mut v, n);
    proof {
        assert(v@ =~= dec_of(n as int));
    }
    v
}

/// The value of one decimal digit character, or `None` for any other
/// character.
pub fn digit_of(c: char) -> (r: Option<u8>)
    ensures
        match r {
            Option::Some(d) => is_digit(c) && d as int == digit_val(c) && d < 10,
            Option::None => !is_digit(c),
        },
{
    if c == '0' {
        Option::Some(0)
    } else if c == '1' {
        Option::Some(1)
    } else if c == '2' {
        Option::Some(2)
    } else if c == '3' {
        Option::Some(3)
    } else if c == '4' {
        Option::Some(4)
    } else if c == '5' {
        Option::Some(5)
    } else if c == '6' {
        Option::Some(6)
    } else if c == '7' {
        Option::Some(7)
    } else if c == '8' {
        Option::Some(8)
    } else {
        if c == '9' {
            Option::Some(9)
        } else {
            proof {
                if 48 <= c as int && c as int <= 57 {
                    assert(c == '0' || c == '1' || c == '2' || c == '3' || c == '4' || c == '5'
                        || c == '6' || c == '7' || c == '8' || c == '9');
                }
            }
            Option::None
        }
    }
}

fn digit_char_exec64(d: u64) -> (c: char)
    requires
        d < 10,
    ensures
        c == digit_char(d as int),
{
    ((d as u8) + 48) as char
}

fn push_dec64(out: &mut Vec<char>, n: u64)
    ensures
        final(out)@ == old(out)@ + dec_of(n as int),
    decreases n,
{
    if n < 10 {
        out.push(digit_char_exec64(n));
        proof {
            assert(out@ =~= old(out)@ + dec_of(n as int));
        }
    } else {
        push_dec64(out, n / 10);
        out.push(digit_char_exec64(n % 10));
        proof {
            assert(out@ =~= old(out)@ + (dec_of(n as int / 10) + seq![
                digit_char(n as int % 10),
            ]));
        }
    }
}

/// The decimal numeral of a 64-bit number.
pub fn u64_digits(n: u64) -> (v: Vec<char>)
    ensures
        v@ == dec_of(n as int),
{
    let mut v: Vec<char> = Vec::new();
    push_dec64(&mut v, n);
    proof {
        assert(v@ =~= dec_of(n as int));
    }
    v
}

/// The lenient port reader: `Some` exactly on non-empty all-digit strings
/// whose value fits 16 bits.
pub fn parse_port(v: &Vec<char>) -> (r: Option<u16>)
    ensures
        r == parse_u16_spec(v@),
{
    if v.len() == 0 {
        return Option::None;
    }
    let mut acc: u32 = 0;
    let mut i: usize = 0;
    while i < v.len()
        invariant
            i <= v@.len(),
            forall|k: int| 0 <= k < i ==> is_digit(#[trigger] v@[k]),
            acc <= 65535,
            acc == digits_value(v@.subrange(0, i as int)),
        decreases v.len() - i,
    {
        let c = v[i];
        let d = match digit_of(c) {
            Option::Some(d) => d,
            Option::None => {
                proof {
                    assert(!is_digit(v@[i as int]));
                    assert(!all_digits(v@));
                }
                return Option::None;
            },
        };
        proof {
            assert(is_digit(v@[i as int]));
            let p = v@.subrange(0, i + 1);
            assert(p.drop_last() =~= v@.subrange(0, i as int));
            assert(p.last() == v@[i as int]);
            assert(digits_value(p) == digits_value(v@.subrange(0, i as int)) * 10 + digit_val(
                v@[i as int],
            ));
        }
        acc = acc * 10 + (d as u32);
        proof {
            assert(acc as int == digits_value(v@.subrange(0, i + 1)));
        }
        i = i + 1;
        if acc > 65535 {
            proof {
                if all_digits(v@) {
                    lemma_digits_value_mono(v@, i as int);
                }
            }
            return Option::None;
        }
    }
    proof {
        assert(v@.subrange(0, v@.len() as int) =~= v@);
    }
    Option::Some(acc as u16)
}

proof fn lemma_trim_start_shape(s: Seq<char>)
    ensures
        trim_start(s).len() > 0 ==> !is_ws(trim_start(s)[0]),
    decreases s.len(),
{
    if s.len() == 0 {
    } else if is_ws(s[0]) {
        lemma_trim_start_shape(s.drop_first());
    } else {
    }
}

proof fn lemma_trim_end_shape(s: Seq<char>)
    ensures
        trim_end(s).len() > 0 ==> !is_ws(trim_end(s).last()),
        trim_end(s).len() > 0 && !is_ws(s[0]) ==> !is_ws(trim_end(s)[0]),
        trim_end(s).len() > 0 ==> trim_end(s)[0] == s[0],
    decreases s.len(),
{
    if s.len() == 0 {
    } else if is_ws(s.last()) {
        lemma_trim_end_shape(s.drop_last());
    } else {
    }
}

} // verus!
