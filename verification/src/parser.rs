//! The CUE sheet parser: from text to a `CueSheet`, line by line.
use vstd::prelude::*;

use crate::builder::{
    command_of, command_of_chars, finish_spec, initial_model, rem_field_of, rem_field_of_chars,
    step_panics, step_spec, Command, CueParser, ParserModel, RemField, StepOutcome,
};
use crate::cue::{time_text, time_valid, CueSheet, CueSheetModel, Time};
use crate::errors::{ParseError, ParseErrorModel};
use crate::text::{
    chars_of, decimal, decimal2, decimal_chars, int_error_text, join, join_from,
    lemma_decimal_digits, lemma_parse_decimal, lemma_split_on_concat, lemma_split_on_single,
    parse_unsigned, parse_unsigned_chars, split_chars, split_on, split_words, string_of, trim,
    trim_chars, words, TrimKind,
};

verus! {

// ---------------------------------------------------------------------------
// Upper-casing (`str::to_uppercase`)
// ---------------------------------------------------------------------------

/// What `str::to_uppercase` returns for a string: its Unicode upper-case mapping.
pub uninterp spec fn str_to_uppercase(s: Seq<char>) -> Seq<char>;

/// Every character is ASCII.
pub open spec fn all_ascii(s: Seq<char>) -> bool {
    forall|i: int| 0 <= i < s.len() ==> (#[trigger] s[i] as u32) < 128
}

/// ASCII upper-casing: `a` to `z` become `A` to `Z`, every other character stays.
pub open spec fn ascii_upper(s: Seq<char>) -> Seq<char> {
    Seq::new(
        s.len(),
        |i: int|
            if 'a' <= s[i] && s[i] <= 'z' {
                ((s[i] as u32) - 32) as char
            } else {
                s[i]
            },
    )
}

/// Calls `str::to_uppercase`. The contract names the result `str_to_uppercase(s@)`:
/// it depends on the characters of `s` alone. Of the Unicode mapping it states only
/// its ASCII part: on an all-ASCII text, `a` to `z` become `A` to `Z` and every other
/// character stays. What it does to other characters is left unsaid.
#[verifier::external_body]
pub(crate) fn to_uppercase(s: &Vec<char>) -> (r: Vec<char>)
    ensures
        r@ == str_to_uppercase(s@),
        all_ascii(s@) ==> r@ == ascii_upper(s@),
{
    let text: String = s.iter().collect();
    text.to_uppercase().chars().collect()
}

// ---------------------------------------------------------------------------
// Results with views
// ---------------------------------------------------------------------------

/// A time result with its error as a model.
pub open spec fn res_time(r: Result<Time, ParseError>) -> Result<Time, ParseErrorModel> {
    match r {
        Ok(t) => Ok(t),
        Err(e) => Err(e@),
    }
}

/// A text result with its text and error as models.
pub open spec fn res_text(r: Result<String, ParseError>) -> Result<Seq<char>, ParseErrorModel> {
    match r {
        Ok(s) => Ok(s@),
        Err(e) => Err(e@),
    }
}

/// A result of two texts with its texts and error as models.
pub open spec fn res_pair(r: Result<(String, String), ParseError>) -> Result<
    (Seq<char>, Seq<char>),
    ParseErrorModel,
> {
    match r {
        Ok((a, b)) => Ok((a@, b@)),
        Err(e) => Err(e@),
    }
}

/// The error message `msg` followed by the 1-based line number of line `k`.
pub open spec fn line_msg(msg: Seq<char>, k: nat) -> Seq<char> {
    msg + decimal(k + 1)
}

/// `msg` followed by the 1-based number of line `k`.
pub(crate) fn at_line(msg: &str, k: usize) -> (s: String)
    requires
        k < usize::MAX,
    ensures
        s@ == line_msg(msg@, k as nat),
{
    let mut v = chars_of(msg);
    let mut d = decimal_chars((k + 1) as u64);
    v.append(&mut d);
    string_of(&v)
}

/// The string holding `msg`.
pub(crate) fn text_of(msg: &str) -> (s: String)
    ensures
        s@ == msg@,
{
    String::from_str(msg)
}

// ---------------------------------------------------------------------------
// Times (`MM:SS:FF`)
// ---------------------------------------------------------------------------

/// The number in `s` as a `u8`, or the message of the `ParseIntError`.
pub open spec fn u8_of(s: Seq<char>) -> Result<u8, Seq<char>> {
    match parse_unsigned(s, 255) {
        Ok(v) => Ok(v as u8),
        Err(e) => Err(int_error_text(e)),
    }
}

/// Parses a `u8`, giving the `ParseIntError` message on failure.
pub(crate) fn parse_u8(s: &Vec<char>) -> (r: Result<u8, String>)
    ensures
        match u8_of(s@) {
            Ok(v) => r == Ok::<u8, String>(v),
            Err(m) => r is Err && r->Err_0@ == m,
        },
{
    match parse_unsigned_chars(s, 255) {
        Ok(v) => Ok(v as u8),
        Err(e) => Err(e.message()),
    }
}

/// What `parse_time` gives for `s`: three `:`-separated numbers that fit in a `u8`,
/// with seconds below 60 and frames below 75.
pub open spec fn time_of(s: Seq<char>) -> Result<Time, ParseErrorModel> {
    let parts = split_on(s, ':');
    if parts.len() != 3 {
        Err(ParseErrorModel::InvalidTime(s))
    } else {
        match u8_of(parts[0]) {
            Err(m) => Err(ParseErrorModel::InvalidNumber(m)),
            Ok(minutes) => match u8_of(parts[1]) {
                Err(m) => Err(ParseErrorModel::InvalidNumber(m)),
                Ok(seconds) => match u8_of(parts[2]) {
                    Err(m) => Err(ParseErrorModel::InvalidNumber(m)),
                    Ok(frames) => if seconds >= 60 || frames >= 75 {
                        Err(
                            ParseErrorModel::InvalidTime(
                                "seconds must be <60, frames <75: "@ + s,
                            ),
                        )
                    } else {
                        Ok(Time { minutes, seconds, frames })
                    },
                },
            },
        }
    }
}

/// Parses a time given as characters.
pub(crate) fn parse_time_chars(s: &Vec<char>) -> (r: Result<Time, ParseError>)
    ensures
        res_time(r) == time_of(s@),
{
    let parts = split_chars(s, ':');
    if parts.len() != 3 {
        return Err(ParseError::InvalidTime(string_of(s)));
    }
    assert(parts.deep_view()[0] == parts[0]@);
    assert(parts.deep_view()[1] == parts[1]@);
    assert(parts.deep_view()[2] == parts[2]@);
    let minutes: u8 = match parse_u8(&parts[0]) {
        Ok(v) => v,
        Err(m) => return Err(ParseError::InvalidNumber(m)),
    };
    let seconds: u8 = match parse_u8(&parts[1]) {
        Ok(v) => v,
        Err(m) => return Err(ParseError::InvalidNumber(m)),
    };
    let frames: u8 = match parse_u8(&parts[2]) {
        Ok(v) => v,
        Err(m) => return Err(ParseError::InvalidNumber(m)),
    };
    if seconds >= 60 || frames >= 75 {
        let mut v = chars_of("seconds must be <60, frames <75: ");
        let mut rest = s.clone();
        v.append(&mut rest);
        return Err(ParseError::InvalidTime(string_of(&v)));
    }
    Ok(Time { minutes, seconds, frames })
}

/// Reading back the text of a valid time gives the same time.
pub proof fn lemma_time_text_parses(t: Time)
    requires
        time_valid(t),
    ensures
        time_of(time_text(t)) == Ok::<Time, ParseErrorModel>(t),
{
    let m = decimal2(t.minutes as nat);
    let sec = decimal2(t.seconds as nat);
    let f = decimal2(t.frames as nat);
    lemma_decimal_digits(t.minutes as nat);
    lemma_decimal_digits(t.seconds as nat);
    lemma_decimal_digits(t.frames as nat);
    lemma_split_on_single(m, ':');
    lemma_split_on_single(sec, ':');
    lemma_split_on_single(f, ':');
    lemma_split_on_concat(m, sec, ':');
    lemma_split_on_concat(m + seq![':'] + sec, f, ':');
    assert(time_text(t) == (m + seq![':'] + sec) + seq![':'] + f);
    let parts = split_on(time_text(t), ':');
    assert(parts =~= seq![m, sec, f]);
    lemma_parse_decimal(t.minutes as nat, 255);
    lemma_parse_decimal(t.seconds as nat, 255);
    lemma_parse_decimal(t.frames as nat, 255);
}

/// Parses a `MM:SS:FF` time.
pub fn parse_time(s: &str) -> (r: Result<Time, ParseError>)
    ensures
        res_time(r) == time_of(s@),
        r matches Ok(t) ==> time_valid(t),
{
    parse_time_chars(&chars_of(s))
}


// ---------------------------------------------------------------------------
// Quoted arguments
// ---------------------------------------------------------------------------

/// A text that begins with a double quote.
pub open spec fn starts_quote(s: Seq<char>) -> bool {
    s.len() > 0 && s[0] == '"'
}

/// A text that ends with a double quote.
pub open spec fn ends_quote(s: Seq<char>) -> bool {
    s.len() > 0 && s.last() == '"'
}

/// Appends the words of `rest`, each after a space, to `acc` until `acc` ends
/// with a quote or the words run out; gives the text and how many words it took.
pub open spec fn gather_quoted(acc: Seq<char>, rest: Seq<Seq<char>>) -> (Seq<char>, nat)
    decreases rest.len(),
{
    if rest.len() == 0 || ends_quote(acc) {
        (acc, 0)
    } else {
        let g = gather_quoted(acc + seq![' '] + rest[0], rest.drop_first());
        (g.0, g.1 + 1)
    }
}

/// Gathering takes no more words than there are.
pub proof fn lemma_gather_bound(acc: Seq<char>, rest: Seq<Seq<char>>)
    ensures
        gather_quoted(acc, rest).1 <= rest.len(),
    decreases rest.len(),
{
    if !(rest.len() == 0 || ends_quote(acc)) {
        lemma_gather_bound(acc + seq![' '] + rest[0], rest.drop_first());
    }
}

/// What `parse_quoted_string` gives: a text that starts with a quote runs up to the
/// word that ends with a quote, without both quotes; any other text is the words
/// joined with spaces.
pub open spec fn quoted_string(args: Seq<Seq<char>>) -> Result<Seq<char>, ParseErrorModel> {
    if args.len() == 0 {
        Err(ParseErrorModel::InvalidString("Empty string"@))
    } else if starts_quote(args[0]) {
        let g = gather_quoted(args[0].drop_first(), args.drop_first()).0;
        if ends_quote(g) {
            Ok(g.drop_last())
        } else {
            Err(ParseErrorModel::InvalidString("Unterminated quoted string"@))
        }
    } else {
        Ok(join(args, ' '))
    }
}

/// What `parse_file_line` gives: the file name (quoted as in `quoted_string`, or the
/// first word) and the remaining words joined with spaces as the file type.
pub open spec fn file_line(args: Seq<Seq<char>>) -> Result<(Seq<char>, Seq<char>), ParseErrorModel>
    recommends
        args.len() > 0,
{
    if starts_quote(args[0]) {
        let g = gather_quoted(args[0].drop_first(), args.drop_first());
        if ends_quote(g.0) {
            Ok((g.0.drop_last(), join(args.skip(g.1 + 1 as int), ' ')))
        } else {
            Err(ParseErrorModel::InvalidString("Unterminated quoted filename"@))
        }
    } else {
        Ok((args[0], join(args.skip(1), ' ')))
    }
}

/// The first word without its first character, followed by the next `k` words,
/// each after a space.
pub open spec fn quoted_prefix(args: Seq<Seq<char>>, k: nat) -> Seq<char>
    decreases k,
{
    if k == 0 {
        args[0].drop_first()
    } else {
        quoted_prefix(args, (k - 1) as nat) + seq![' '] + args[k as int]
    }
}

proof fn lemma_gather_prefix(args: Seq<Seq<char>>, j: nat)
    requires
        j < args.len(),
    ensures
        forall|k: nat|
            j <= k < args.len() && ends_quote(quoted_prefix(args, k)) && (forall|i: nat|
                j <= i < k ==> !ends_quote(#[trigger] quoted_prefix(args, i))) ==> gather_quoted(
                quoted_prefix(args, j),
                args.skip(j + 1 as int),
            ).0 == quoted_prefix(args, k),
        (forall|i: nat| j <= i < args.len() ==> !ends_quote(#[trigger] quoted_prefix(args, i)))
            ==> gather_quoted(quoted_prefix(args, j), args.skip(j + 1 as int)).0 == quoted_prefix(
            args,
            (args.len() - 1) as nat,
        ),
    decreases args.len() - j,
{
    let rest = args.skip(j + 1 as int);
    if j + 1 < args.len() {
        lemma_gather_prefix(args, j + 1);
        assert(rest[0] == args[j + 1 as int]);
        assert(rest.drop_first() =~= args.skip(j + 2 as int));
        assert(quoted_prefix(args, j + 1) == quoted_prefix(args, j) + seq![' '] + args[j + 1 as int]);
        assert forall|k: nat|
            j <= k < args.len() && ends_quote(quoted_prefix(args, k)) && (forall|i: nat|
                j <= i < k ==> !ends_quote(#[trigger] quoted_prefix(args, i))) implies gather_quoted(
            quoted_prefix(args, j),
            args.skip(j + 1 as int),
        ).0 == quoted_prefix(args, k) by {
            if k > j {
                assert(!ends_quote(quoted_prefix(args, j)));
            }
        }
        if forall|i: nat| j <= i < args.len() ==> !ends_quote(#[trigger] quoted_prefix(args, i)) {
            assert(!ends_quote(quoted_prefix(args, j)));
        }
    } else {
        assert(rest.len() == 0);
    }
}

/// `parse_quoted_string` in closed form: a text that does not start with a quote is
/// the words joined with spaces; one that does is `quoted_prefix(args, k)` without
/// its last character for the least `k` whose prefix ends with a quote (later words
/// are ignored), and is refused when no prefix ends with a quote.
pub proof fn lemma_quoted_string_closed_form(args: Seq<Seq<char>>)
    requires
        args.len() >= 1,
    ensures
        !starts_quote(args[0]) ==> quoted_string(args) == Ok::<Seq<char>, ParseErrorModel>(
            join(args, ' '),
        ),
        forall|k: nat|
            starts_quote(args[0]) && k < args.len() && ends_quote(quoted_prefix(args, k)) && (
            forall|i: nat| i < k ==> !ends_quote(#[trigger] quoted_prefix(args, i))) ==> quoted_string(
                args,
            ) == Ok::<Seq<char>, ParseErrorModel>(quoted_prefix(args, k).drop_last()),
        starts_quote(args[0]) && (forall|i: nat|
            i < args.len() ==> !ends_quote(#[trigger] quoted_prefix(args, i))) ==> quoted_string(args)
            == Err::<Seq<char>, ParseErrorModel>(
            ParseErrorModel::InvalidString("Unterminated quoted string"@),
        ),
{
    lemma_gather_prefix(args, 0);
    assert(args.skip(1) =~= args.drop_first());
    assert(quoted_prefix(args, 0) == args[0].drop_first());
}

/// A word in quotes reads as the text between the quotes.
pub proof fn lemma_quoted_word(s: Seq<char>, ty: Seq<char>)
    ensures
        quoted_string(seq![seq!['"'] + s + seq!['"']]) == Ok::<Seq<char>, ParseErrorModel>(s),
        file_line(seq![seq!['"'] + s + seq!['"'], ty]) == Ok::<(Seq<char>, Seq<char>), ParseErrorModel>((s, ty)),
{
    let w = seq!['"'] + s + seq!['"'];
    assert(w.drop_first() =~= s + seq!['"']);
    assert((s + seq!['"']).drop_last() =~= s);
    let a1 = seq![w];
    assert(a1.drop_first() =~= Seq::<Seq<char>>::empty());
    let a2 = seq![w, ty];
    assert(a2[0] == w);
    assert(a2.drop_first() =~= seq![ty]);
    assert(a2.skip(1) =~= seq![ty]);
    assert(join(seq![ty], ' ') == ty);
}

/// Runs the gathering loop over `parts[from + 1..]`, starting from `parts[from]`
/// without its first character; gives the text and the index after the last word taken.
fn gather_chars(parts: &Vec<Vec<char>>, from: usize) -> (r: (Vec<char>, usize))
    requires
        from < parts.len(),
        parts[from as int]@.len() > 0,
    ensures
        ({
            let args = parts.deep_view().skip(from as int);
            let g = gather_quoted(args[0].drop_first(), args.drop_first());
            &&& r.0@ == g.0
            &&& r.1 == from + 1 + g.1
        }),
{
    let ghost args = parts.deep_view().skip(from as int);
    let ghost rest = args.drop_first();
    let ghost start = args[0].drop_first();
    let first = &parts[from];
    let mut acc: Vec<char> = Vec::new();
    let mut k: usize = 1;
    while k < first.len()
        invariant
            1 <= k <= first.len(),
            first@ == parts[from as int]@,
            acc@ == first@.subrange(1, k as int),
        decreases first.len() - k,
    {
        acc.push(first[k]);
        k = k + 1;
    }
    assert(acc@ =~= start);
    let mut i: usize = from + 1;
    proof {
        lemma_gather_bound(start, rest);
        assert(rest.skip(0) =~= rest);
    }
    while i < parts.len() && !(acc.len() > 0 && acc[acc.len() - 1] == '"')
        invariant
            from + 1 <= i <= parts.len(),
            args == parts.deep_view().skip(from as int),
            rest == args.drop_first(),
            gather_quoted(start, rest).0 == gather_quoted(acc@, rest.skip(i - from - 1)).0,
            gather_quoted(start, rest).1 == gather_quoted(acc@, rest.skip(i - from - 1)).1 + (i
                - from - 1),
        decreases parts.len() - i,
    {
        let ghost r = rest.skip(i - from - 1);
        let ghost old_acc = acc@;
        assert(r[0] == parts[i as int]@);
        assert(r.drop_first() =~= rest.skip(i - from));
        assert(!ends_quote(old_acc));
        acc.push(' ');
        let w = &parts[i];
        let mut j: usize = 0;
        let ghost base = acc@;
        while j < w.len()
            invariant
                j <= w.len(),
                acc@ == base + w@.take(j as int),
            decreases w.len() - j,
        {
            acc.push(w[j]);
            j = j + 1;
            assert(w@.take(j as int) == w@.take(j - 1).push(w@[j - 1]));
        }
        assert(w@.take(w.len() as int) == w@);
        assert(acc@ =~= old_acc + seq![' '] + r[0]);
        i = i + 1;
    }
    proof {
        assert(gather_quoted(acc@, rest.skip(i - from - 1)).1 == 0);
    }
    (acc, i)
}

/// `parse_quoted_string` of `parts[from..]`.
pub(crate) fn quoted_string_chars(parts: &Vec<Vec<char>>, from: usize) -> (r: Result<String, ParseError>)
    requires
        from <= parts.len(),
    ensures
        res_text(r) == quoted_string(parts.deep_view().skip(from as int)),
{
    let ghost args = parts.deep_view().skip(from as int);
    if from == parts.len() {
        return Err(ParseError::InvalidString(text_of("Empty string")));
    }
    assert(args[0] == parts[from as int]@);
    if parts[from].len() > 0 && parts[from][0] == '"' {
        let (mut g, _) = gather_chars(parts, from);
        if g.len() > 0 && g[g.len() - 1] == '"' {
            g.pop();
            Ok(string_of(&g))
        } else {
            Err(ParseError::InvalidString(text_of("Unterminated quoted string")))
        }
    } else {
        Ok(string_of(&join_from(parts, from, ' ')))
    }
}

/// `parse_file_line` of `parts[from..]`.
pub(crate) fn file_line_chars(parts: &Vec<Vec<char>>, from: usize) -> (r: Result<(String, String), ParseError>)
    requires
        from < parts.len(),
    ensures
        res_pair(r) == file_line(parts.deep_view().skip(from as int)),
{
    let ghost args = parts.deep_view().skip(from as int);
    assert(args[0] == parts[from as int]@);
    if parts[from].len() > 0 && parts[from][0] == '"' {
        let (mut g, next) = gather_chars(parts, from);
        if g.len() > 0 && g[g.len() - 1] == '"' {
            g.pop();
            let ghost n = gather_quoted(args[0].drop_first(), args.drop_first()).1;
            proof {
                lemma_gather_bound(args[0].drop_first(), args.drop_first());
                assert(parts.deep_view().skip(next as int) =~= args.skip(n + 1 as int));
            }
            Ok((string_of(&g), string_of(&join_from(parts, next, ' '))))
        } else {
            Err(ParseError::InvalidString(text_of("Unterminated quoted filename")))
        }
    } else {
        proof {
            assert(parts.deep_view().skip(from + 1) =~= args.skip(1));
        }
        Ok((string_of(&parts[from]), string_of(&join_from(parts, from + 1, ' '))))
    }
}

/// The characters of each string.
pub fn strings_chars(v: &Vec<String>) -> (r: Vec<Vec<char>>)
    ensures
        r.deep_view() == v.deep_view(),
{
    let mut r: Vec<Vec<char>> = Vec::new();
    let mut i: usize = 0;
    while i < v.len()
        invariant
            i <= v.len(),
            r.deep_view() == v.deep_view().take(i as int),
        decreases v.len() - i,
    {
        let ghost before = r.deep_view();
        let c = chars_of(v[i].as_str());
        assert(c@ == v.deep_view()[i as int]);
        r.push(c);
        assert(r.deep_view() =~~= before.push(c@));
        i = i + 1;
        assert(v.deep_view().take(i as int) =~~= v.deep_view().take(i - 1).push(c@));
    }
    assert(v.deep_view().take(v.len() as int) =~= v.deep_view());
    r
}

/// Reads a possibly quoted string argument.
pub fn parse_quoted_string(args: &Vec<String>) -> (r: Result<String, ParseError>)
    ensures
        res_text(r) == quoted_string(args.deep_view()),
{
    let parts = strings_chars(args);
    assert(parts.deep_view().skip(0) =~= args.deep_view());
    quoted_string_chars(&parts, 0)
}

/// Reads the arguments of a `FILE` line: the file name and the file type.
pub fn parse_file_line(args: &Vec<String>) -> (r: Result<(String, String), ParseError>)
    requires
        args.len() > 0,
    ensures
        res_pair(r) == file_line(args.deep_view()),
{
    let parts = strings_chars(args);
    assert(parts.deep_view().skip(0) =~= args.deep_view());
    file_line_chars(&parts, 0)
}


// ---------------------------------------------------------------------------
// Whole CUE sheets
// ---------------------------------------------------------------------------

/// The command of a trimmed, non-empty line's first word.
pub open spec fn line_command(parts: Seq<Seq<char>>) -> Command {
    command_of(str_to_uppercase(parts[0]))
}

/// The `REM` field of a line's second word, when the line is a `REM` line with at
/// least two arguments.
pub open spec fn line_rem_field(parts: Seq<Seq<char>>) -> RemField {
    if line_command(parts) == Command::Rem && parts.len() >= 3 {
        rem_field_of(str_to_uppercase(parts[1]))
    } else {
        RemField::Other
    }
}

/// What the `k`-th raw input line does to the state `st`: blank lines are skipped,
/// any other line is trimmed and read by `step_spec`.
pub open spec fn line_outcome(st: ParserModel, k: nat, raw: Seq<char>) -> StepOutcome {
    let line = trim(TrimKind::Whitespace, raw);
    let parts = words(line);
    if line.len() == 0 || parts.len() == 0 {
        StepOutcome::Next(st)
    } else if step_panics(line, line_command(parts)) {
        StepOutcome::Panic
    } else {
        step_spec(st, k, line, line_command(parts), line_rem_field(parts))
    }
}

/// The outcome of reading the first `n` lines.
pub open spec fn run_lines(lines: Seq<Seq<char>>, n: nat) -> StepOutcome
    decreases n,
{
    if n == 0 {
        StepOutcome::Next(initial_model())
    } else {
        match run_lines(lines, (n - 1) as nat) {
            StepOutcome::Next(st) => line_outcome(st, (n - 1) as nat, lines[n - 1]),
            other => other,
        }
    }
}

/// Once a line fails or does not return, so does the whole input.
pub proof fn lemma_run_lines_stops(lines: Seq<Seq<char>>, k: nat, n: nat)
    requires
        k <= n,
        !(run_lines(lines, k) is Next),
    ensures
        run_lines(lines, n) == run_lines(lines, k),
    decreases n - k,
{
    if k < n {
        lemma_run_lines_stops(lines, k, (n - 1) as nat);
    }
}

/// What parsing a CUE text gives.
pub enum CueOutcome {
    Parsed(CueSheetModel),
    Failed(ParseErrorModel),
    /// Parsing does not return: a `FILE` line without arguments is reached.
    Panics,
}

/// What `parse_cue` gives for `input`: its lines (split at `\n`) read one after the
/// other from the empty state, then the end of input.
pub open spec fn cue_outcome(input: Seq<char>) -> CueOutcome {
    let lines = split_on(input, '\n');
    match run_lines(lines, lines.len()) {
        StepOutcome::Next(st) => match finish_spec(st) {
            Ok(c) => CueOutcome::Parsed(c),
            Err(e) => CueOutcome::Failed(e),
        },
        StepOutcome::Fail(e) => CueOutcome::Failed(e),
        StepOutcome::Panic => CueOutcome::Panics,
    }
}

/// `r` is what the outcome `o` describes.
pub open spec fn outcome_matches(o: CueOutcome, r: Result<CueSheet, ParseError>) -> bool {
    match o {
        CueOutcome::Parsed(c) => r is Ok && r->Ok_0@ == c,
        CueOutcome::Failed(e) => r is Err && r->Err_0@ == e,
        CueOutcome::Panics => false,
    }
}

/// Reads every line, then the end of input; `None` where the parse would not return.
fn run_parser(input: &str) -> (r: Option<Result<CueSheet, ParseError>>)
    ensures
        match cue_outcome(input@) {
            CueOutcome::Panics => r is None,
            o => r is Some && outcome_matches(o, r->0),
        },
{
    let chars = chars_of(input);
    let lines = split_chars(&chars, '\n');
    let ghost ls = lines.deep_view();
    let mut p = CueParser::new();
    let mut k: usize = 0;
    while k < lines.len()
        invariant
            k <= lines.len(),
            ls == lines.deep_view(),
            ls == split_on(input@, '\n'),
            run_lines(ls, k as nat) == StepOutcome::Next(p@),
        decreases lines.len() - k,
    {
        let line = trim_chars(TrimKind::Whitespace, &lines[k]);
        assert(ls[k as int] == lines[k as int]@);
        if line.len() > 0 {
            let parts = split_words(&line);
            if parts.len() > 0 {
                assert(parts.deep_view()[0] == parts[0]@);
                let upper = to_uppercase(&parts[0]);
                let cmd = command_of_chars(&upper);
                let rem = if cmd == Command::Rem && parts.len() >= 3 {
                    assert(parts.deep_view()[1] == parts[1]@);
                    let upper2 = to_uppercase(&parts[1]);
                    rem_field_of_chars(&upper2)
                } else {
                    RemField::Other
                };
                if cmd == Command::File && parts.len() == 1 {
                    proof {
                        lemma_run_lines_stops(ls, (k + 1) as nat, ls.len());
                    }
                    return None;
                }
                let ghost before = p@;
                match p.step_chars(k, &line, &parts, cmd, rem) {
                    Ok(()) => {},
                    Err(e) => {
                        proof {
                            lemma_run_lines_stops(ls, (k + 1) as nat, ls.len());
                        }
                        return Some(Err(e));
                    },
                }
            }
        }
        k = k + 1;
    }
    Some(p.finish())
}

/// Parses a CUE sheet. An input on which reading reaches a `FILE` line without
/// arguments is left out: there the parse does not return.
pub fn parse_cue(input: &str) -> (r: Result<CueSheet, ParseError>)
    requires
        !(cue_outcome(input@) is Panics),
    ensures
        outcome_matches(cue_outcome(input@), r),
{
    match run_parser(input) {
        Some(r) => r,
        None => vstd::pervasive::unreached(),
    }
}

/// Parses a CUE sheet, or gives `None` where reading reaches a `FILE` line without
/// arguments.
pub fn try_parse_cue(input: &str) -> (r: Option<Result<CueSheet, ParseError>>)
    ensures
        match cue_outcome(input@) {
            CueOutcome::Panics => r is None,
            o => r is Some && outcome_matches(o, r->0),
        },
{
    match run_parser(input) {
        None => None,
        Some(_) => Some(parse_cue(input)),
    }
}


/// The lines among the first `n` whose command word names no command: each with its
/// index (from 0) and its upper-cased command word.
pub open spec fn unknown_lines(lines: Seq<Seq<char>>, n: nat) -> Seq<(nat, Seq<char>)>
    decreases n,
{
    if n == 0 {
        Seq::empty()
    } else {
        let prev = unknown_lines(lines, (n - 1) as nat);
        let line = trim(TrimKind::Whitespace, lines[n - 1]);
        let parts = words(line);
        if line.len() > 0 && parts.len() > 0 && line_command(parts) == Command::Unknown {
            prev.push(((n - 1) as nat, str_to_uppercase(parts[0])))
        } else {
            prev
        }
    }
}

/// Unknown-command notices as models.
pub open spec fn notices_view(v: Seq<(usize, String)>) -> Seq<(nat, Seq<char>)> {
    v.map_values(|p: (usize, String)| (p.0 as nat, p.1@))
}

/// How many of the first `n` lines are read: every line up to the one at which the
/// parse fails or does not return, that line included.
pub open spec fn lines_read(lines: Seq<Seq<char>>, n: nat) -> nat
    decreases n,
{
    if n == 0 {
        0
    } else if run_lines(lines, (n - 1) as nat) is Next {
        n
    } else {
        lines_read(lines, (n - 1) as nat)
    }
}

/// Where the `k`-th line stops the parse, it is the last line read.
proof fn lemma_lines_read_stop(lines: Seq<Seq<char>>, k: nat, n: nat)
    requires
        k < n,
        run_lines(lines, k) is Next,
        !(run_lines(lines, k + 1) is Next),
    ensures
        lines_read(lines, n) == k + 1,
    decreases n,
{
    if n > k + 1 {
        lemma_run_lines_stops(lines, k + 1, (n - 1) as nat);
        lemma_lines_read_stop(lines, k, (n - 1) as nat);
    }
}

proof fn lemma_lines_read_bound(lines: Seq<Seq<char>>, n: nat)
    ensures
        lines_read(lines, n) <= n,
        lines_read(lines, n) < n ==> !(run_lines(lines, n) is Next),
    decreases n,
{
    if n > 0 {
        lemma_lines_read_bound(lines, (n - 1) as nat);
    }
}

/// Where parsing reads fewer lines than there are, it gives no sheet: it failed or
/// does not return at the last line read.
pub proof fn lemma_notices_end_where_parsing_stops(input: Seq<char>)
    ensures
        ({
            let lines = split_on(input, '\n');
            &&& lines_read(lines, lines.len()) <= lines.len()
            &&& lines_read(lines, lines.len()) < lines.len() ==> !(cue_outcome(input) is Parsed)
        }),
{
    let lines = split_on(input, '\n');
    lemma_lines_read_bound(lines, lines.len());
}

/// The unknown-command notices of a CUE text: among the lines that parsing reads
/// (up to the one at which it fails or does not return), those whose command is not
/// known, each with its 0-based line index and its upper-cased command word, in order.
pub open spec fn cue_notices(input: Seq<char>) -> Seq<(nat, Seq<char>)> {
    let lines = split_on(input, '\n');
    unknown_lines(lines, lines_read(lines, lines.len()))
}

/// The lines of a CUE text that parsing reads and whose command is not known: the
/// 0-based line index and the upper-cased command word of each, in order.
pub fn unknown_commands(input: &str) -> (r: Vec<(usize, String)>)
    ensures
        notices_view(r@) == cue_notices(input@),
{
    let chars = chars_of(input);
    let lines = split_chars(&chars, '\n');
    let ghost ls = lines.deep_view();
    let mut out: Vec<(usize, String)> = Vec::new();
    let mut p = CueParser::new();
    let mut k: usize = 0;
    while k < lines.len()
        invariant
            k <= lines.len(),
            ls == lines.deep_view(),
            ls == split_on(input@, '\n'),
            run_lines(ls, k as nat) == StepOutcome::Next(p@),
            notices_view(out@) == unknown_lines(ls, k as nat),
        decreases lines.len() - k,
    {
        assert(ls[k as int] == lines[k as int]@);
        let line = trim_chars(TrimKind::Whitespace, &lines[k]);
        if line.len() > 0 {
            let parts = split_words(&line);
            if parts.len() > 0 {
                assert(parts.deep_view()[0] == parts[0]@);
                let upper = to_uppercase(&parts[0]);
                let cmd = command_of_chars(&upper);
                if cmd == Command::Unknown {
                    let ghost before = notices_view(out@);
                    let s = string_of(&upper);
                    out.push((k, s));
                    assert(notices_view(out@) =~= before.push((k as nat, upper@)));
                }
                let rem = if cmd == Command::Rem && parts.len() >= 3 {
                    assert(parts.deep_view()[1] == parts[1]@);
                    let upper2 = to_uppercase(&parts[1]);
                    rem_field_of_chars(&upper2)
                } else {
                    RemField::Other
                };
                if cmd == Command::File && parts.len() == 1 {
                    proof {
                        lemma_lines_read_stop(ls, k as nat, ls.len());
                    }
                    return out;
                }
                match p.step_chars(k, &line, &parts, cmd, rem) {
                    Ok(()) => {},
                    Err(_) => {
                        proof {
                            lemma_lines_read_stop(ls, k as nat, ls.len());
                        }
                        return out;
                    },
                }
            }
        }
        k = k + 1;
    }
    proof {
        if ls.len() > 0 && !(run_lines(ls, (ls.len() - 1) as nat) is Next) {
            lemma_run_lines_stops(ls, (ls.len() - 1) as nat, ls.len());
        }
    }
    out
}

} // verus!
