//! Character-level text helpers: whitespace, splitting, joining, numbers.
use vstd::prelude::*;

verus! {

/// `char::is_whitespace`: the Unicode `White_Space` property.
pub open spec fn is_ws(c: char) -> bool {
    ||| ('\u{9}' <= c && c <= '\u{d}')
    ||| c == ' '
    ||| c == '\u{85}'
    ||| c == '\u{a0}'
    ||| c == '\u{1680}'
    ||| ('\u{2000}' <= c && c <= '\u{200a}')
    ||| c == '\u{2028}'
    ||| c == '\u{2029}'
    ||| c == '\u{202f}'
    ||| c == '\u{205f}'
    ||| c == '\u{3000}'
}

/// Whether `c` is whitespace, as `char::is_whitespace` decides it.
pub fn is_whitespace(c: char) -> (r: bool)
    ensures
        r == is_ws(c),
{
    ('\u{9}' <= c && c <= '\u{d}') || c == ' ' || c == '\u{85}' || c == '\u{a0}' || c == '\u{1680}'
        || ('\u{2000}' <= c && c <= '\u{200a}') || c == '\u{2028}' || c == '\u{2029}' || c
        == '\u{202f}' || c == '\u{205f}' || c == '\u{3000}'
}

/// The characters of a string slice, in order.
pub fn chars_of(s: &str) -> (v: Vec<char>)
    ensures
        v@ == s@,
{
    let mut v: Vec<char> = Vec::new();
    for c in it: s.chars()
        invariant
            v@ == it.seq().take(it.index() as int),
    {
        v.push(c);
    }
    v
}

/// `String::push`: appends one character.
#[verifier::external_body]
fn string_push(s: &mut String, c: char)
    ensures
        final(s)@ == old(s)@.push(c),
{
    s.push(c);
}

/// Builds a string holding exactly the given characters.
pub fn string_of(v: &Vec<char>) -> (s: String)
    ensures
        s@ == v@,
{
    let mut s = String::new();
    let mut i: usize = 0;
    while i < v.len()
        invariant
            i <= v.len(),
            s@ == v@.take(i as int),
        decreases v.len() - i,
    {
        string_push(&mut s, v[i]);
        i = i + 1;
        assert(v@.take(i as int) == v@.take((i - 1) as int).push(v@[i - 1]));
    }
    assert(v@.take(v.len() as int) == v@);
    s
}


// ---------------------------------------------------------------------------
// Splitting at a separator character (`str::split`)
// ---------------------------------------------------------------------------

/// The pieces of `s` between occurrences of `sep`, as `str::split(sep)` yields them.
pub open spec fn split_on(s: Seq<char>, sep: char) -> Seq<Seq<char>>
    decreases s.len(),
{
    if s.len() == 0 {
        seq![Seq::<char>::empty()]
    } else {
        let prev = split_on(s.drop_last(), sep);
        if s.last() == sep {
            prev.push(Seq::<char>::empty())
        } else {
            prev.update(prev.len() - 1, prev.last().push(s.last()))
        }
    }
}

/// A text without the separator is one piece.
pub proof fn lemma_split_on_single(d: Seq<char>, sep: char)
    requires
        forall|i: int| 0 <= i < d.len() ==> d[i] != sep,
    ensures
        split_on(d, sep) == seq![d],
    decreases d.len(),
{
    if d.len() > 0 {
        lemma_split_on_single(d.drop_last(), sep);
        assert(d.drop_last().push(d.last()) =~= d);
        assert(split_on(d, sep) =~= seq![d]);
    } else {
        assert(d =~= Seq::<char>::empty());
    }
}

/// Splitting at a separator between two texts splits each text on its own.
pub proof fn lemma_split_on_concat(x: Seq<char>, y: Seq<char>, sep: char)
    ensures
        split_on(x + seq![sep] + y, sep) == split_on(x, sep) + split_on(y, sep),
    decreases y.len(),
{
    let z = x + seq![sep] + y;
    if y.len() == 0 {
        assert(z.drop_last() =~= x);
        assert(split_on(z, sep) =~= split_on(x, sep) + split_on(y, sep));
    } else {
        let y1 = y.drop_last();
        lemma_split_on_concat(x, y1, sep);
        lemma_split_on_nonempty(y1, sep);
        lemma_split_on_nonempty(x, sep);
        assert(z.drop_last() =~= x + seq![sep] + y1);
        assert(z.last() == y.last());
        assert(split_on(z, sep) =~= split_on(x, sep) + split_on(y, sep));
    }
}

/// Splitting always gives at least one piece.
pub proof fn lemma_split_on_nonempty(s: Seq<char>, sep: char)
    ensures
        split_on(s, sep).len() >= 1,
    decreases s.len(),
{
    if s.len() > 0 {
        lemma_split_on_nonempty(s.drop_last(), sep);
    }
}

/// Splits at every `sep`.
pub fn split_chars(s: &Vec<char>, sep: char) -> (parts: Vec<Vec<char>>)
    ensures
        parts.deep_view() == split_on(s@, sep),
{
    let mut done: Vec<Vec<char>> = Vec::new();
    let mut cur: Vec<char> = Vec::new();
    let mut i: usize = 0;
    proof {
        assert(s@.take(0) == Seq::<char>::empty());
        assert(done.deep_view().push(cur@) =~= split_on(s@.take(0), sep));
    }
    while i < s.len()
        invariant
            i <= s.len(),
            done.deep_view().push(cur@) == split_on(s@.take(i as int), sep),
        decreases s.len() - i,
    {
        let c = s[i];
        let ghost before = s@.take(i as int);
        proof {
            assert(s@.take(i + 1).drop_last() == before);
            lemma_split_on_nonempty(before, sep);
        }
        if c == sep {
            let finished = cur;
            done.push(finished);
            cur = Vec::new();
            proof {
                assert(done.deep_view().push(cur@) =~~= split_on(before, sep).push(Seq::<char>::empty()));
            }
        } else {
            cur.push(c);
            proof {
                let prev = split_on(before, sep);
                assert(done.deep_view().push(cur@) =~~= prev.update(prev.len() - 1, prev.last().push(c)));
            }
        }
        i = i + 1;
    }
    proof {
        assert(s@.take(s.len() as int) == s@);
    }
    let ghost expected = done.deep_view().push(cur@);
    let last = cur;
    done.push(last);
    proof {
        assert(done.deep_view() =~~= expected);
    }
    done
}

// ---------------------------------------------------------------------------
// Whitespace-separated words (`str::split_whitespace`)
// ---------------------------------------------------------------------------

/// The maximal runs of non-whitespace characters of `s`, in order.
pub open spec fn words(s: Seq<char>) -> Seq<Seq<char>>
    decreases s.len(),
{
    if s.len() == 0 {
        Seq::<Seq<char>>::empty()
    } else {
        let prev = words(s.drop_last());
        let c = s.last();
        if is_ws(c) {
            prev
        } else if s.len() >= 2 && !is_ws(s[s.len() - 2]) {
            prev.update(prev.len() - 1, prev.last().push(c))
        } else {
            prev.push(seq![c])
        }
    }
}

/// A string that ends in a non-whitespace character has at least one word.
pub proof fn lemma_words_nonempty(s: Seq<char>)
    requires
        s.len() >= 1,
        !is_ws(s.last()),
    ensures
        words(s).len() >= 1,
    decreases s.len(),
{
    if s.len() >= 2 && !is_ws(s[s.len() - 2]) {
        lemma_words_nonempty(s.drop_last());
    }
}

/// The whitespace-separated words.
pub fn split_words(s: &Vec<char>) -> (ws: Vec<Vec<char>>)
    ensures
        ws.deep_view() == words(s@),
{
    let mut ws: Vec<Vec<char>> = Vec::new();
    let mut i: usize = 0;
    proof {
        assert(s@.take(0) == Seq::<char>::empty());
        assert(ws.deep_view() =~= words(s@.take(0)));
    }
    while i < s.len()
        invariant
            i <= s.len(),
            ws.deep_view() == words(s@.take(i as int)),
        decreases s.len() - i,
    {
        let c = s[i];
        let ghost before = s@.take(i as int);
        let ghost now = s@.take(i + 1);
        proof {
            assert(now.drop_last() == before);
            assert(now.last() == c);
        }
        if is_whitespace(c) {
        } else if i >= 1 && !is_whitespace(s[i - 1]) {
            proof {
                assert(now[now.len() - 2] == s@[i - 1]);
                assert(before.last() == s@[i - 1]);
                lemma_words_nonempty(before);
            }
            let last_index = ws.len() - 1;
            let mut w = ws.remove(last_index);
            w.push(c);
            ws.push(w);
            proof {
                let prev = words(before);
                assert(ws.deep_view() =~~= prev.update(prev.len() - 1, prev.last().push(c)));
            }
        } else {
            proof {
                if i >= 1 {
                    assert(now[now.len() - 2] == s@[i - 1]);
                }
            }
            let mut w: Vec<char> = Vec::new();
            w.push(c);
            ws.push(w);
            proof {
                assert(ws.deep_view() =~~= words(before).push(seq![c]));
            }
        }
        i = i + 1;
    }
    proof {
        assert(s@.take(s.len() as int) == s@);
    }
    ws
}


// ---------------------------------------------------------------------------
// Trimming (`str::trim`, `str::trim_matches('"')`)
// ---------------------------------------------------------------------------

/// Which characters a trim removes.
#[derive(Clone, Copy, PartialEq, Eq, Structural)]
pub enum TrimKind {
    /// Whitespace, as `str::trim` removes it.
    Whitespace,
    /// Double quotes, as `str::trim_matches('"')` removes them.
    Quote,
}

/// Whether a trim of kind `k` removes `c`.
pub open spec fn trims(k: TrimKind, c: char) -> bool {
    match k {
        TrimKind::Whitespace => is_ws(c),
        TrimKind::Quote => c == '"',
    }
}

fn trims_char(k: TrimKind, c: char) -> (r: bool)
    ensures
        r == trims(k, c),
{
    match k {
        TrimKind::Whitespace => is_whitespace(c),
        TrimKind::Quote => c == '"',
    }
}

/// `s` without the trimmed characters at its start.
pub open spec fn trim_start(k: TrimKind, s: Seq<char>) -> Seq<char>
    decreases s.len(),
{
    if s.len() > 0 && trims(k, s[0]) {
        trim_start(k, s.drop_first())
    } else {
        s
    }
}

/// `s` without the trimmed characters at its end.
pub open spec fn trim_end(k: TrimKind, s: Seq<char>) -> Seq<char>
    decreases s.len(),
{
    if s.len() > 0 && trims(k, s.last()) {
        trim_end(k, s.drop_last())
    } else {
        s
    }
}

/// `s` with the trimmed characters removed from both ends.
pub open spec fn trim(k: TrimKind, s: Seq<char>) -> Seq<char> {
    trim_end(k, trim_start(k, s))
}

/// Removes the trimmed characters from both ends.
pub fn trim_chars(k: TrimKind, s: &Vec<char>) -> (r: Vec<char>)
    ensures
        r@ == trim(k, s@),
{
    let n = s.len();
    let mut i: usize = 0;
    assert(s@.subrange(0, n as int) == s@);
    while i < n && trims_char(k, s[i])
        invariant
            n == s.len(),
            i <= n,
            trim_start(k, s@) == trim_start(k, s@.subrange(i as int, n as int)),
        decreases n - i,
    {
        assert(s@.subrange(i as int, n as int).drop_first() == s@.subrange(i + 1, n as int));
        i = i + 1;
    }
    let mut j: usize = n;
    assert(trim_start(k, s@) == s@.subrange(i as int, n as int));
    while j > i && trims_char(k, s[j - 1])
        invariant
            n == s.len(),
            i <= j <= n,
            trim(k, s@) == trim_end(k, s@.subrange(i as int, j as int)),
        decreases j - i,
    {
        assert(s@.subrange(i as int, j as int).drop_last() == s@.subrange(i as int, j - 1));
        j = j - 1;
    }
    let mut r: Vec<char> = Vec::new();
    let mut t: usize = i;
    while t < j
        invariant
            n == s.len(),
            i <= t <= j <= n,
            r@ == s@.subrange(i as int, t as int),
        decreases j - t,
    {
        r.push(s[t]);
        t = t + 1;
    }
    r
}

// ---------------------------------------------------------------------------
// Joining (`[&str]::join(" ")`)
// ---------------------------------------------------------------------------

/// The parts joined with one `sep` between neighbours.
pub open spec fn join(parts: Seq<Seq<char>>, sep: char) -> Seq<char>
    decreases parts.len(),
{
    if parts.len() == 0 {
        Seq::<char>::empty()
    } else if parts.len() == 1 {
        parts[0]
    } else {
        join(parts.drop_last(), sep) + seq![sep] + parts.last()
    }
}

/// Joins `parts[from..]` with one `sep` between neighbours.
pub fn join_from(parts: &Vec<Vec<char>>, from: usize, sep: char) -> (r: Vec<char>)
    requires
        from <= parts.len(),
    ensures
        r@ == join(parts.deep_view().skip(from as int), sep),
{
    let ghost all = parts.deep_view().skip(from as int);
    let mut r: Vec<char> = Vec::new();
    let mut i: usize = from;
    assert(all.take(0) == Seq::<Seq<char>>::empty());
    while i < parts.len()
        invariant
            from <= i <= parts.len(),
            all == parts.deep_view().skip(from as int),
            r@ == join(all.take(i - from), sep),
        decreases parts.len() - i,
    {
        let ghost prev = all.take(i - from);
        let ghost next = all.take(i - from + 1);
        assert(next.drop_last() =~= prev);
        assert(next.last() == parts[i as int]@);
        if i > from {
            r.push(sep);
        }
        let mut k: usize = 0;
        let ghost base = r@;
        while k < parts[i].len()
            invariant
                from <= i < parts.len(),
                k <= parts[i as int].len(),
                r@ == base + parts[i as int]@.take(k as int),
            decreases parts[i as int].len() - k,
        {
            r.push(parts[i][k]);
            k = k + 1;
            assert(parts[i as int]@.take(k as int) == parts[i as int]@.take(k - 1).push(
                parts[i as int]@[k - 1],
            ));
        }
        assert(parts[i as int]@.take(k as int) == parts[i as int]@);
        i = i + 1;
    }
    assert(all.take(parts.len() - from) == all);
    r
}

// ---------------------------------------------------------------------------
// Prefixes and equality
// ---------------------------------------------------------------------------

/// Whether two character vectors are equal.
pub fn chars_eq(a: &Vec<char>, b: &Vec<char>) -> (r: bool)
    ensures
        r == (a@ == b@),
{
    if a.len() != b.len() {
        return false;
    }
    let mut i: usize = 0;
    while i < a.len()
        invariant
            a.len() == b.len(),
            i <= a.len(),
            a@.take(i as int) == b@.take(i as int),
        decreases a.len() - i,
    {
        if a[i] != b[i] {
            assert(a@.take(i + 1).last() != b@.take(i + 1).last());
            return false;
        }
        i = i + 1;
        assert(a@.take(i as int) =~= b@.take(i as int));
    }
    assert(a@.take(a.len() as int) == a@);
    assert(b@.take(b.len() as int) == b@);
    true
}

/// Whether `s` begins with the characters of `prefix`.
pub fn starts_with(s: &Vec<char>, prefix: &str) -> (r: bool)
    ensures
        r == (prefix@.len() <= s@.len() && s@.take(prefix@.len() as int) == prefix@),
{
    let p = chars_of(prefix);
    if p.len() > s.len() {
        return false;
    }
    let mut i: usize = 0;
    while i < p.len()
        invariant
            p@ == prefix@,
            p.len() <= s.len(),
            i <= p.len(),
            s@.take(i as int) == p@.take(i as int),
        decreases p.len() - i,
    {
        if s[i] != p[i] {
            assert(s@.take(p.len() as int)[i as int] != p@[i as int]);
            assert(s@.take(p.len() as int) != p@);
            return false;
        }
        i = i + 1;
        assert(s@.take(i as int) =~= p@.take(i as int));
    }
    assert(s@.take(p.len() as int) =~= p@);
    true
}

/// Whether the characters of `s` are exactly those of `lit`.
pub fn chars_are(s: &Vec<char>, lit: &str) -> (r: bool)
    ensures
        r == (s@ == lit@),
{
    let p = chars_of(lit);
    chars_eq(s, &p)
}


// ---------------------------------------------------------------------------
// Decimal numbers
// ---------------------------------------------------------------------------

/// The ASCII digit for `d` (for `d < 10`).
pub open spec fn digit_char(d: nat) -> char {
    ((48 + d) as u8) as char
}

/// An ASCII decimal digit.
pub open spec fn is_digit(c: char) -> bool {
    '0' <= c && c <= '9'
}

/// The value of an ASCII decimal digit.
pub open spec fn digit_value(c: char) -> nat {
    ((c as int) - 48) as nat
}

/// The decimal representation of `n`, without leading zeros (as `{}` formats it).
pub open spec fn decimal(n: nat) -> Seq<char>
    decreases n,
{
    if n < 10 {
        seq![digit_char(n)]
    } else {
        decimal(n / 10).push(digit_char(n % 10))
    }
}

/// `decimal(n)` padded with zeros on the left to at least two characters (`{:02}`).
pub open spec fn decimal2(n: nat) -> Seq<char> {
    if n < 10 {
        seq!['0', digit_char(n)]
    } else {
        decimal(n)
    }
}

fn digit_of(d: u64) -> (c: char)
    requires
        d < 10,
    ensures
        c == digit_char(d as nat),
        is_digit(c),
        digit_value(c) == d,
{
    let b: u8 = 48 + d as u8;
    b as char
}

/// The decimal digits of `n`.
pub fn decimal_chars(n: u64) -> (v: Vec<char>)
    ensures
        v@ == decimal(n as nat),
    decreases n,
{
    if n < 10 {
        let mut v: Vec<char> = Vec::new();
        v.push(digit_of(n));
        proof {
            assert(v@ =~= seq![digit_char(n as nat)]);
        }
        v
    } else {
        let mut v = decimal_chars(n / 10);
        v.push(digit_of(n % 10));
        v
    }
}

/// `decimal2` of `n`, as characters.
pub fn decimal2_chars(n: u64) -> (v: Vec<char>)
    ensures
        v@ == decimal2(n as nat),
{
    if n < 10 {
        let mut v: Vec<char> = Vec::new();
        v.push('0');
        v.push(digit_of(n));
        proof {
            assert(v@ =~= seq!['0', digit_char(n as nat)]);
        }
        v
    } else {
        decimal_chars(n)
    }
}

/// `n` formatted with `{}`.
pub fn decimal_string(n: u64) -> (s: String)
    ensures
        s@ == decimal(n as nat),
{
    string_of(&decimal_chars(n))
}

/// Why a string is not an unsigned number (`std::num::IntErrorKind`).
#[derive(Clone, Copy, PartialEq, Eq, Structural, Debug)]
pub enum IntError {
    /// The string is empty.
    Empty,
    /// The string holds a character that is not a decimal digit.
    InvalidDigit,
    /// The number does not fit in the target type.
    PosOverflow,
}

/// The value of a digit string read left to right, failing at the first character
/// that is not a digit or at the first prefix whose value exceeds `max`.
pub open spec fn digits_value(d: Seq<char>, max: nat) -> Result<nat, IntError>
    decreases d.len(),
{
    if d.len() == 0 {
        Ok(0)
    } else {
        match digits_value(d.drop_last(), max) {
            Err(e) => Err(e),
            Ok(v) => if !is_digit(d.last()) {
                Err(IntError::InvalidDigit)
            } else if v * 10 + digit_value(d.last()) > max {
                Err(IntError::PosOverflow)
            } else {
                Ok(v * 10 + digit_value(d.last()))
            },
        }
    }
}

/// What `str::parse` gives for an unsigned integer type whose largest value is `max`:
/// an optional leading `+`, then decimal digits.
pub open spec fn parse_unsigned(s: Seq<char>, max: nat) -> Result<nat, IntError> {
    if s.len() == 0 {
        Err(IntError::Empty)
    } else if s.len() == 1 && (s[0] == '+' || s[0] == '-') {
        Err(IntError::InvalidDigit)
    } else if s[0] == '+' {
        digits_value(s.drop_first(), max)
    } else {
        digits_value(s, max)
    }
}

proof fn lemma_digits_value_bounded(d: Seq<char>, max: nat)
    ensures
        digits_value(d, max) matches Ok(v) ==> v <= max,
    decreases d.len(),
{
    if d.len() > 0 {
        lemma_digits_value_bounded(d.drop_last(), max);
    }
}

/// A number that parses is no larger than the largest value of its type.
pub proof fn lemma_parse_unsigned_bounded(s: Seq<char>, max: nat)
    ensures
        parse_unsigned(s, max) matches Ok(v) ==> v <= max,
{
    lemma_digits_value_bounded(s, max);
    if s.len() > 0 {
        lemma_digits_value_bounded(s.drop_first(), max);
    }
}

/// Once a prefix fails, the whole digit string fails the same way.
pub proof fn lemma_digits_value_stops(d: Seq<char>, k: nat, max: nat)
    requires
        k <= d.len(),
        digits_value(d.take(k as int), max) is Err,
    ensures
        digits_value(d, max) == digits_value(d.take(k as int), max),
    decreases d.len() - k,
{
    if k < d.len() {
        assert(d.take(k + 1 as int).drop_last() =~= d.take(k as int));
        lemma_digits_value_stops(d, k + 1, max);
    } else {
        assert(d.take(k as int) =~= d);
    }
}

fn digits_value_exec(s: &Vec<char>, from: usize, max: u64) -> (r: Result<u64, IntError>)
    requires
        from <= s.len(),
    ensures
        match digits_value(s@.skip(from as int), max as nat) {
            Ok(v) => r == Ok::<u64, IntError>(v as u64),
            Err(e) => r == Err::<u64, IntError>(e),
        },
{
    let ghost d = s@.skip(from as int);
    let mut acc: u64 = 0;
    let mut i: usize = from;
    assert(d.take(0) == Seq::<char>::empty());
    while i < s.len()
        invariant
            from <= i <= s.len(),
            d == s@.skip(from as int),
            digits_value(d.take(i - from), max as nat) == Ok::<nat, IntError>(acc as nat),
            acc <= max,
        decreases s.len() - i,
    {
        let c = s[i];
        let ghost pre = d.take(i - from);
        let ghost next = d.take(i - from + 1);
        assert(next.drop_last() =~= pre);
        assert(next.last() == c);
        if !('0' <= c && c <= '9') {
            proof {
                lemma_digits_value_stops(d, (i - from) as nat + 1, max as nat);
            }
            return Err(IntError::InvalidDigit);
        }
        let dv: u64 = (c as u64) - 48;
        assert(dv == digit_value(c));
        if dv > max || acc > (max - dv) / 10 {
            proof {
                if dv <= max {
                    assert(acc * 10 + dv > max) by (nonlinear_arith)
                        requires
                            acc > (max - dv) / 10,
                            dv <= max,
                    ;
                }
                lemma_digits_value_stops(d, (i - from) as nat + 1, max as nat);
            }
            return Err(IntError::PosOverflow);
        }
        proof {
            assert(acc * 10 + dv <= max) by (nonlinear_arith)
                requires
                    acc <= (max - dv) / 10,
                    dv <= max,
            ;
        }
        acc = acc * 10 + dv;
        i = i + 1;
    }
    assert(d.take(s.len() - from) == d);
    Ok(acc)
}


/// Parses an unsigned number no larger than `max`, as `str::parse` does.
pub fn parse_unsigned_chars(s: &Vec<char>, max: u64) -> (r: Result<u64, IntError>)
    ensures
        match parse_unsigned(s@, max as nat) {
            Ok(v) => r == Ok::<u64, IntError>(v as u64),
            Err(e) => r == Err::<u64, IntError>(e),
        },
{
    if s.len() == 0 {
        Err(IntError::Empty)
    } else if s.len() == 1 && (s[0] == '+' || s[0] == '-') {
        Err(IntError::InvalidDigit)
    } else if s[0] == '+' {
        assert(s@.skip(1) =~= s@.drop_first());
        digits_value_exec(s, 1, max)
    } else {
        assert(s@.skip(0) =~= s@);
        digits_value_exec(s, 0, max)
    }
}

/// The message `std::num::ParseIntError` displays for each kind.
pub open spec fn int_error_text(e: IntError) -> Seq<char> {
    match e {
        IntError::Empty => "cannot parse integer from empty string"@,
        IntError::InvalidDigit => "invalid digit found in string"@,
        IntError::PosOverflow => "number too large to fit in target type"@,
    }
}

impl IntError {
    /// The message of this error.
    pub fn message(&self) -> (s: String)
        ensures
            s@ == int_error_text(*self),
    {
        match self {
            IntError::Empty => String::from_str("cannot parse integer from empty string"),
            IntError::InvalidDigit => String::from_str("invalid digit found in string"),
            IntError::PosOverflow => String::from_str("number too large to fit in target type"),
        }
    }
}

/// The digit for `d` is a digit whose value is `d`.
pub proof fn lemma_digit_char(d: nat)
    requires
        d < 10,
    ensures
        is_digit(digit_char(d)),
        digit_value(digit_char(d)) == d,
        digit_char(d) != '+',
        digit_char(d) != '-',
{
}

/// Reading back the decimal representation of `n` gives `n`.
pub proof fn lemma_decimal_value(n: nat, max: nat)
    requires
        n <= max,
    ensures
        digits_value(decimal(n), max) == Ok::<nat, IntError>(n),
        decimal(n).len() >= 1,
        decimal(n)[0] != '+',
        decimal(n)[0] != '-',
    decreases n,
{
    if n < 10 {
        lemma_digit_char(n);
        let d = decimal(n);
        assert(d.drop_last() =~= Seq::<char>::empty());
        assert(digits_value(Seq::<char>::empty(), max) == Ok::<nat, IntError>(0));
        assert(d.last() == digit_char(n));
        assert(digits_value(d, max) == Ok::<nat, IntError>(n));
    } else {
        lemma_decimal_value(n / 10, max);
        lemma_digit_char(n % 10);
        let d = decimal(n);
        assert(d.drop_last() =~= decimal(n / 10));
        assert(d.last() == digit_char(n % 10));
        assert((n / 10) * 10 + n % 10 == n);
        assert(digits_value(d.drop_last(), max) == Ok::<nat, IntError>(n / 10));
        assert(digits_value(d, max) == Ok::<nat, IntError>(n));
    }
}

/// A decimal representation holds digits only.
pub proof fn lemma_decimal_digits(n: nat)
    ensures
        forall|i: int| 0 <= i < decimal(n).len() ==> is_digit(#[trigger] decimal(n)[i]),
        forall|i: int| 0 <= i < decimal2(n).len() ==> is_digit(#[trigger] decimal2(n)[i]),
    decreases n,
{
    if n < 10 {
        lemma_digit_char(n);
        assert(is_digit('0'));
        assert(decimal2(n) =~= seq!['0', digit_char(n)]);
    } else {
        lemma_decimal_digits(n / 10);
        lemma_digit_char(n % 10);
        let p = decimal(n / 10);
        assert forall|i: int| 0 <= i < decimal(n).len() implies is_digit(#[trigger] decimal(n)[i]) by {
            if i < p.len() {
                assert(decimal(n)[i] == p[i]);
            }
        }
    }
}

/// Reading back the decimal representation of `n` gives `n`.
pub proof fn lemma_parse_decimal(n: nat, max: nat)
    requires
        n <= max,
    ensures
        parse_unsigned(decimal(n), max) == Ok::<nat, IntError>(n),
        parse_unsigned(decimal2(n), max) == Ok::<nat, IntError>(n),
{
    lemma_decimal_value(n, max);
    if n < 10 {
        lemma_digit_char(n);
        let d2 = decimal2(n);
        assert(d2.drop_last() =~= seq!['0']);
        assert(seq!['0'].drop_last() =~= Seq::<char>::empty());
        assert(digit_value('0') == 0);
        assert(is_digit('0'));
        assert(digits_value(Seq::<char>::empty(), max) == Ok::<nat, IntError>(0));
        assert(seq!['0'].last() == '0');
        assert(digits_value(seq!['0'], max) == Ok::<nat, IntError>(0));
        assert(digits_value(d2, max) == Ok::<nat, IntError>(n));
    }
}

} // verus!
