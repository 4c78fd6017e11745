//! The command line: splitting arguments and turning them into a configuration.
use vstd::prelude::*;

use crate::errors::{ConfigError, ConfigErrorModel};
use crate::parser::{strings_chars, text_of};
use crate::text::{
    chars_are, chars_eq, decimal, decimal_chars, int_error_text, parse_unsigned,
    parse_unsigned_chars, string_of,
};

verus! {

/// What the splitter is asked to do.
pub struct Config {
    pub ffmpreg_path: String,
    pub input_cue: Option<String>,
    pub input_file: Option<String>,
    pub output_dir: Option<String>,
    pub album_cover: Option<String>,
    pub format: String,
    pub bitrate: Option<u64>,
    pub sample_rate: Option<u64>,
    pub channels: Option<u8>,
    pub embed_cue: bool,
    pub skip_metadata: bool,
    pub overwrite: bool,
    pub include_pregap: bool,
    pub include_postgap: bool,
    pub dry_run: bool,
    pub verbose: bool,
    pub extra_args: Vec<String>,
}

/// A configuration with its texts as character sequences.
#[verifier::ext_equal]
pub struct ConfigModel {
    pub ffmpreg_path: Seq<char>,
    pub input_cue: Option<Seq<char>>,
    pub input_file: Option<Seq<char>>,
    pub output_dir: Option<Seq<char>>,
    pub album_cover: Option<Seq<char>>,
    pub format: Seq<char>,
    pub bitrate: Option<u64>,
    pub sample_rate: Option<u64>,
    pub channels: Option<u8>,
    pub embed_cue: bool,
    pub skip_metadata: bool,
    pub overwrite: bool,
    pub include_pregap: bool,
    pub include_postgap: bool,
    pub dry_run: bool,
    pub verbose: bool,
    pub extra_args: Seq<Seq<char>>,
}

impl View for Config {
    type V = ConfigModel;

    open spec fn view(&self) -> ConfigModel {
        ConfigModel {
            ffmpreg_path: self.ffmpreg_path@,
            input_cue: self.input_cue.deep_view(),
            input_file: self.input_file.deep_view(),
            output_dir: self.output_dir.deep_view(),
            album_cover: self.album_cover.deep_view(),
            format: self.format@,
            bitrate: self.bitrate,
            sample_rate: self.sample_rate,
            channels: self.channels,
            embed_cue: self.embed_cue,
            skip_metadata: self.skip_metadata,
            overwrite: self.overwrite,
            include_pregap: self.include_pregap,
            include_postgap: self.include_postgap,
            dry_run: self.dry_run,
            verbose: self.verbose,
            extra_args: self.extra_args.deep_view(),
        }
    }
}

/// The configuration before any argument is read.
pub open spec fn default_config() -> ConfigModel {
    ConfigModel {
        ffmpreg_path: "ffmpeg"@,
        input_cue: None,
        input_file: None,
        output_dir: Some("."@),
        album_cover: None,
        format: "flac"@,
        bitrate: None,
        sample_rate: None,
        channels: None,
        embed_cue: false,
        skip_metadata: false,
        overwrite: false,
        include_pregap: false,
        include_postgap: false,
        dry_run: false,
        verbose: false,
        extra_args: Seq::empty(),
    }
}

/// A sample rate other than the usual ones.
pub open spec fn unusual_sample_rate(r: u64) -> bool {
    !(r == 44100 || r == 48000 || r == 88200 || r == 96000 || r == 192000)
}

/// A channel count other than mono or stereo.
pub open spec fn unusual_channels(c: u8) -> bool {
    c != 1 && c != 2
}

/// Something unusual in a configuration that is still accepted.
#[derive(Clone, Copy, PartialEq, Eq, Structural, Debug)]
pub enum ConfigWarning {
    UnusualSampleRate(u64),
    UnusualChannels(u8),
}

/// The warnings for a configuration: first an unusual sample rate, then an unusual
/// channel count.
pub open spec fn config_warnings(c: ConfigModel) -> Seq<ConfigWarning> {
    let a = match c.sample_rate {
        Some(r) => if unusual_sample_rate(r) {
            seq![ConfigWarning::UnusualSampleRate(r)]
        } else {
            Seq::empty()
        },
        None => Seq::empty(),
    };
    let b = match c.channels {
        Some(ch) => if unusual_channels(ch) {
            seq![ConfigWarning::UnusualChannels(ch)]
        } else {
            Seq::empty()
        },
        None => Seq::empty(),
    };
    a + b
}

/// The text shown for a warning.
pub open spec fn warning_text(w: ConfigWarning) -> Seq<char> {
    match w {
        ConfigWarning::UnusualSampleRate(r) => "Warning: Unusual sample rate: "@ + decimal(r as nat),
        ConfigWarning::UnusualChannels(c) => "Warning: Unusual channel count: "@ + decimal(c as nat),
    }
}

impl ConfigWarning {
    /// The text shown for this warning.
    pub fn to_string(&self) -> (s: String)
        ensures
            s@ == warning_text(*self),
    {
        let (mut v, n): (Vec<char>, u64) = match self {
            ConfigWarning::UnusualSampleRate(r) => (chars_of_lit("Warning: Unusual sample rate: "), *r),
            ConfigWarning::UnusualChannels(c) => (chars_of_lit("Warning: Unusual channel count: "), *c as u64),
        };
        let mut d = decimal_chars(n);
        v.append(&mut d);
        string_of(&v)
    }
}

/// The characters of a literal.
fn chars_of_lit(s: &str) -> (v: Vec<char>)
    ensures
        v@ == s@,
{
    crate::text::chars_of(s)
}

/// What `validate` gives: a bitrate of 0 is refused.
pub open spec fn validate_spec(c: ConfigModel) -> Result<(), ConfigErrorModel> {
    if c.bitrate == Some(0u64) {
        Err(ConfigErrorModel::InvalidNumber("Bitrate must be positive"@))
    } else {
        Ok(())
    }
}

impl Config {
    /// The configuration before any argument is read.
    pub fn default() -> (c: Config)
        ensures
            c@ == default_config(),
    {
        let c = Config {
            input_cue: None,
            input_file: None,
            album_cover: None,
            ffmpreg_path: text_of("ffmpeg"),
            format: text_of("flac"),
            output_dir: Some(text_of(".")),
            bitrate: None,
            sample_rate: None,
            channels: None,
            embed_cue: false,
            skip_metadata: false,
            overwrite: false,
            include_pregap: false,
            include_postgap: false,
            dry_run: false,
            verbose: false,
            extra_args: Vec::new(),
        };
        assert(c@.extra_args =~= Seq::<Seq<char>>::empty());
        c
    }

    /// Checks the numbers of the configuration.
    pub fn validate(&self) -> (r: Result<(), ConfigError>)
        ensures
            match validate_spec(self@) {
                Ok(()) => r is Ok,
                Err(e) => r is Err && r->Err_0@ == e,
            },
    {
        if let Some(bitrate) = self.bitrate {
            if bitrate == 0 {
                return Err(ConfigError::InvalidNumber(text_of("Bitrate must be positive")));
            }
        }
        Ok(())
    }

    /// The warnings for this configuration.
    pub fn warnings(&self) -> (w: Vec<ConfigWarning>)
        ensures
            w@ == config_warnings(self@),
    {
        let mut w: Vec<ConfigWarning> = Vec::new();
        if let Some(r) = self.sample_rate {
            if !(r == 44100 || r == 48000 || r == 88200 || r == 96000 || r == 192000) {
                w.push(ConfigWarning::UnusualSampleRate(r));
            }
        }
        if let Some(c) = self.channels {
            if c != 1 && c != 2 {
                w.push(ConfigWarning::UnusualChannels(c));
            }
        }
        assert(w@ =~= config_warnings(self@));
        w
    }
}


// ---------------------------------------------------------------------------
// Raw arguments
// ---------------------------------------------------------------------------

/// The program arguments, sorted by kind.
pub struct Args {
    /// Dashed arguments with no value after them, in order.
    pub flags: Vec<String>,
    /// Dashed arguments with the value that follows them; a repeated key keeps its
    /// first place and takes the last value.
    pub options: Vec<(String, String)>,
    /// Arguments without a dash, in order.
    pub positionals: Vec<String>,
    /// The arguments after `--`, in order.
    pub extra_args: Vec<String>,
}

#[verifier::ext_equal]
pub struct ArgsModel {
    pub flags: Seq<Seq<char>>,
    pub options: Seq<(Seq<char>, Seq<char>)>,
    pub positionals: Seq<Seq<char>>,
    pub extra_args: Seq<Seq<char>>,
}

/// An option pair as character sequences.
pub open spec fn pair_view(p: (String, String)) -> (Seq<char>, Seq<char>) {
    (p.0@, p.1@)
}

/// The options with their texts as character sequences.
pub open spec fn options_view(o: Seq<(String, String)>) -> Seq<(Seq<char>, Seq<char>)> {
    o.map_values(|p: (String, String)| pair_view(p))
}

impl View for Args {
    type V = ArgsModel;

    open spec fn view(&self) -> ArgsModel {
        ArgsModel {
            flags: self.flags.deep_view(),
            options: options_view(self.options@),
            positionals: self.positionals.deep_view(),
            extra_args: self.extra_args.deep_view(),
        }
    }
}

/// No arguments of any kind.
pub open spec fn empty_args() -> ArgsModel {
    ArgsModel {
        flags: Seq::empty(),
        options: Seq::empty(),
        positionals: Seq::empty(),
        extra_args: Seq::empty(),
    }
}

/// An argument that names a flag or an option: a dash followed by something.
pub open spec fn is_dashed(a: Seq<char>) -> bool {
    a.len() > 1 && a[0] == '-'
}

/// An argument that begins with a dash.
pub open spec fn starts_dash(a: Seq<char>) -> bool {
    a.len() > 0 && a[0] == '-'
}

/// The first place among the first `n` options whose key is `k`.
pub open spec fn key_pos(o: Seq<(Seq<char>, Seq<char>)>, k: Seq<char>, n: nat) -> Option<nat>
    decreases n,
{
    if n == 0 {
        None
    } else {
        match key_pos(o, k, (n - 1) as nat) {
            Some(j) => Some(j),
            None => if o[n - 1].0 == k {
                Some((n - 1) as nat)
            } else {
                None
            },
        }
    }
}

/// Inserting into a map from keys to values: a present key gets the new value in
/// its place, a new key goes last.
pub open spec fn insert_option(o: Seq<(Seq<char>, Seq<char>)>, k: Seq<char>, v: Seq<char>) -> Seq<
    (Seq<char>, Seq<char>),
> {
    match key_pos(o, k, o.len()) {
        Some(j) => o.update(j as int, (k, v)),
        None => o.push((k, v)),
    }
}

/// No key occurs twice.
pub open spec fn keys_distinct(o: Seq<(Seq<char>, Seq<char>)>) -> bool {
    forall|i: int, j: int| 0 <= i < j < o.len() ==> o[i].0 != o[j].0
}

/// Sorting `raw[i..]` into `acc`, where `after` tells whether `--` was seen.
pub open spec fn sort_args(raw: Seq<Seq<char>>, i: nat, after: bool, acc: ArgsModel) -> ArgsModel
    decreases raw.len() - i,
{
    if i >= raw.len() {
        acc
    } else {
        let a = raw[i as int];
        if a == "--"@ {
            sort_args(raw, i + 1, true, acc)
        } else if after {
            sort_args(raw, i + 1, true, ArgsModel { extra_args: acc.extra_args.push(a), ..acc })
        } else if is_dashed(a) {
            if i + 1 < raw.len() && !starts_dash(raw[i + 1 as int]) {
                sort_args(
                    raw,
                    i + 2,
                    false,
                    ArgsModel { options: insert_option(acc.options, a, raw[i + 1 as int]), ..acc },
                )
            } else {
                sort_args(raw, i + 1, false, ArgsModel { flags: acc.flags.push(a), ..acc })
            }
        } else {
            sort_args(raw, i + 1, false, ArgsModel { positionals: acc.positionals.push(a), ..acc })
        }
    }
}

/// Finds the place of the key `k` among the options.
fn find_key(o: &Vec<(String, String)>, k: &Vec<char>) -> (r: Option<usize>)
    ensures
        match r {
            Some(j) => j < o.len() && key_pos(options_view(o@), k@, o.len() as nat) == Some(j as nat),
            None => key_pos(options_view(o@), k@, o.len() as nat) is None,
        },
{
    let ghost m = options_view(o@);
    let mut i: usize = 0;
    while i < o.len()
        invariant
            i <= o.len(),
            m == options_view(o@),
            key_pos(m, k@, i as nat) is None,
        decreases o.len() - i,
    {
        let key = crate::text::chars_of(o[i].0.as_str());
        assert(m[i as int].0 == key@);
        if chars_eq(&key, k) {
            proof {
                lemma_key_pos_found(m, k@, (i + 1) as nat, o.len() as nat);
                lemma_key_pos(m, k@, o.len() as nat);
            }
            return Some(i);
        }
        i = i + 1;
    }
    None
}

/// Once found among the first `n`, a key keeps its place among the first `m`.
pub proof fn lemma_key_pos_found(o: Seq<(Seq<char>, Seq<char>)>, k: Seq<char>, n: nat, m: nat)
    requires
        n <= m,
        key_pos(o, k, n) is Some,
    ensures
        key_pos(o, k, m) == key_pos(o, k, n),
    decreases m - n,
{
    if n < m {
        lemma_key_pos_found(o, k, n, (m - 1) as nat);
    }
}

/// The first place of a key is a place of that key, and no earlier place holds it.
pub proof fn lemma_key_pos(o: Seq<(Seq<char>, Seq<char>)>, k: Seq<char>, n: nat)
    requires
        n <= o.len(),
    ensures
        match key_pos(o, k, n) {
            Some(j) => j < n && o[j as int].0 == k,
            None => forall|i: int| 0 <= i < n ==> o[i].0 != k,
        },
    decreases n,
{
    if n > 0 {
        lemma_key_pos(o, k, (n - 1) as nat);
    }
}

/// Inserting keeps the keys distinct, and the key is then present with its value.
pub proof fn lemma_insert_option(o: Seq<(Seq<char>, Seq<char>)>, k: Seq<char>, v: Seq<char>)
    requires
        keys_distinct(o),
    ensures
        keys_distinct(insert_option(o, k, v)),
        insert_option(o, k, v).contains((k, v)),
{
    lemma_key_pos(o, k, o.len());
    let r = insert_option(o, k, v);
    match key_pos(o, k, o.len()) {
        Some(j) => {
            assert(r[j as int] == (k, v));
        },
        None => {
            assert(r[o.len() as int] == (k, v));
        },
    }
}

fn insert_option_exec(o: &mut Vec<(String, String)>, k: &Vec<char>, v: &Vec<char>)
    ensures
        options_view(final(o)@) == insert_option(
            options_view(old(o)@),
            k@,
            v@,
        ),
{
    let ghost m = options_view(old(o)@);
    assert(m.len() == old(o)@.len());
    match find_key(o, k) {
        Some(j) => {
            o.set(j, (string_of(k), string_of(v)));
            assert(options_view(o@) =~= m.update(j as int, (k@, v@)));
            assert(key_pos(m, k@, m.len()) == Some(j as nat));
        },
        None => {
            o.push((string_of(k), string_of(v)));
            assert(options_view(o@) =~= m.push((k@, v@)));
            assert(key_pos(m, k@, m.len()) is None);
        },
    }
}

impl Args {
    /// Sorts the program arguments (without the program name) into flags, options,
    /// positional arguments and the arguments after `--`.
    pub fn parse(raw_args: &Vec<String>) -> (a: Args)
        ensures
            a@ == sort_args(raw_args.deep_view(), 0, false, empty_args()),
            keys_distinct(a@.options),
    {
        let raw = strings_chars(raw_args);
        let ghost rv = raw.deep_view();
        let mut args = Args {
            flags: Vec::new(),
            options: Vec::new(),
            positionals: Vec::new(),
            extra_args: Vec::new(),
        };
        assert(args@ =~~= empty_args());
        let mut i: usize = 0;
        let mut after_double_dash = false;
        while i < raw.len()
            invariant
                i <= raw.len(),
                rv == raw.deep_view(),
                rv == raw_args.deep_view(),
                sort_args(rv, 0, false, empty_args()) == sort_args(rv, i as nat, after_double_dash, args@),
                keys_distinct(args@.options),
            decreases raw.len() - i,
        {
            let arg = &raw[i];
            assert(rv[i as int] == arg@);
            let ghost before = args@;
            if chars_are(arg, "--") {
                after_double_dash = true;
                i = i + 1;
            } else if after_double_dash {
                args.extra_args.push(string_of(arg));
                assert(args@ =~~= ArgsModel { extra_args: before.extra_args.push(arg@), ..before });
                i = i + 1;
            } else if arg.len() > 1 && arg[0] == '-' {
                if i + 1 < raw.len() && !(raw[i + 1].len() > 0 && raw[i + 1][0] == '-') {
                    assert(rv[i + 1] == raw[i + 1]@);
                    proof {
                        lemma_insert_option(before.options, arg@, raw[i + 1]@);
                    }
                    insert_option_exec(&mut args.options, arg, &raw[i + 1]);
                    assert(args@ =~~= ArgsModel { options: insert_option(before.options, arg@, raw[i + 1]@), ..before });
                    i = i + 2;
                } else {
                    args.flags.push(string_of(arg));
                    assert(args@ =~~= ArgsModel { flags: before.flags.push(arg@), ..before });
                    i = i + 1;
                }
            } else {
                args.positionals.push(string_of(arg));
                assert(args@ =~~= ArgsModel { positionals: before.positionals.push(arg@), ..before });
                i = i + 1;
            }
        }
        args
    }
}


// ---------------------------------------------------------------------------
// What `--` does to the arguments
// ---------------------------------------------------------------------------

/// The place of the first `--` in `raw` from `i` on, or `raw.len()` where there is none.
pub open spec fn double_dash_from(raw: Seq<Seq<char>>, i: nat) -> nat
    decreases raw.len() - i,
{
    if i >= raw.len() {
        raw.len()
    } else if raw[i as int] == "--"@ {
        i
    } else {
        double_dash_from(raw, i + 1)
    }
}

/// The place of the first `--` in `raw`, or `raw.len()` where there is none.
pub open spec fn first_double_dash(raw: Seq<Seq<char>>) -> nat {
    double_dash_from(raw, 0)
}

/// `s` without its `--` elements, in order.
pub open spec fn without_double_dash(s: Seq<Seq<char>>) -> Seq<Seq<char>>
    decreases s.len(),
{
    if s.len() == 0 {
        Seq::empty()
    } else if s[0] == "--"@ {
        without_double_dash(s.drop_first())
    } else {
        seq![s[0]] + without_double_dash(s.drop_first())
    }
}

/// What follows the first `--`, without its `--` elements; nothing where there is no
/// `--`.
pub open spec fn after_double_dash(raw: Seq<Seq<char>>) -> Seq<Seq<char>> {
    let k = first_double_dash(raw);
    if k < raw.len() {
        without_double_dash(raw.skip(k + 1 as int))
    } else {
        Seq::empty()
    }
}

/// `a` is taken from `b` at the places `idx`, which rise.
pub open spec fn subseq_at(a: Seq<Seq<char>>, b: Seq<Seq<char>>, idx: Seq<int>) -> bool {
    &&& idx.len() == a.len()
    &&& forall|i: int| 0 <= i < a.len() ==> 0 <= #[trigger] idx[i] < b.len() && b[idx[i]] == a[i]
    &&& forall|i: int, j: int| 0 <= i < j < a.len() ==> idx[i] < idx[j]
}

/// `a` is a subsequence of `b`: its elements occur in `b` in the same order.
pub open spec fn is_subseq(a: Seq<Seq<char>>, b: Seq<Seq<char>>) -> bool {
    exists|idx: Seq<int>| subseq_at(a, b, idx)
}

proof fn lemma_double_dash_from(raw: Seq<Seq<char>>, i: nat)
    requires
        i <= raw.len(),
    ensures
        i <= double_dash_from(raw, i) <= raw.len(),
        forall|j: int| i <= j < double_dash_from(raw, i) ==> raw[j] != "--"@,
        double_dash_from(raw, i) < raw.len() ==> raw[double_dash_from(raw, i) as int] == "--"@,
    decreases raw.len() - i,
{
    if i < raw.len() && raw[i as int] != "--"@ {
        lemma_double_dash_from(raw, i + 1);
    }
}

/// After `--`, every argument but `--` goes to the extra arguments, in order.
proof fn lemma_sort_after(raw: Seq<Seq<char>>, i: nat, acc: ArgsModel)
    requires
        i <= raw.len(),
    ensures
        sort_args(raw, i, true, acc)
            == (ArgsModel { extra_args: acc.extra_args + without_double_dash(raw.skip(i as int)), ..acc }),
    decreases raw.len() - i,
{
    let rest = raw.skip(i as int);
    if i == raw.len() {
        assert(rest =~= Seq::<Seq<char>>::empty());
        assert(acc.extra_args + without_double_dash(rest) =~= acc.extra_args);
    } else {
        assert(rest[0] == raw[i as int]);
        assert(rest.drop_first() =~= raw.skip(i + 1 as int));
        let a = raw[i as int];
        if a == "--"@ {
            lemma_sort_after(raw, i + 1, acc);
        } else {
            let acc1 = ArgsModel { extra_args: acc.extra_args.push(a), ..acc };
            lemma_sort_after(raw, i + 1, acc1);
            assert(acc.extra_args.push(a) + without_double_dash(raw.skip(i + 1 as int))
                =~= acc.extra_args + without_double_dash(rest));
        }
    }
}

/// Before the first `--`, sorting reads only the arguments in front of it: the same
/// as sorting them alone, then going on after `--`. Nothing there goes to the extra
/// arguments.
proof fn lemma_sort_before(raw: Seq<Seq<char>>, k: nat, i: nat, acc: ArgsModel)
    requires
        i <= k <= raw.len(),
        forall|j: int| i <= j < k ==> raw[j] != "--"@,
        k < raw.len() ==> raw[k as int] == "--"@,
    ensures
        sort_args(raw.take(k as int), i, false, acc).extra_args == acc.extra_args,
        sort_args(raw, i, false, acc) == (if k < raw.len() {
            sort_args(raw, k + 1, true, sort_args(raw.take(k as int), i, false, acc))
        } else {
            sort_args(raw.take(k as int), i, false, acc)
        }),
    decreases k - i,
{
    reveal_strlit("--");
    let pre = raw.take(k as int);
    if k == raw.len() {
        assert(pre =~= raw);
    }
    if i < k {
        let a = raw[i as int];
        assert(pre[i as int] == a);
        if is_dashed(a) {
            if i + 1 < k {
                assert(pre[i + 1 as int] == raw[i + 1 as int]);
            }
            if i + 1 < k && !starts_dash(raw[i + 1 as int]) {
                let acc1 = ArgsModel { options: insert_option(acc.options, a, raw[i + 1 as int]), ..acc };
                lemma_sort_before(raw, k, i + 2, acc1);
            } else {
                let acc1 = ArgsModel { flags: acc.flags.push(a), ..acc };
                lemma_sort_before(raw, k, i + 1, acc1);
            }
        } else {
            let acc1 = ArgsModel { positionals: acc.positionals.push(a), ..acc };
            lemma_sort_before(raw, k, i + 1, acc1);
        }
    }
}

/// Sorting arguments without `--` keeps the flags and the positional arguments in
/// the order they come.
proof fn lemma_sort_keeps_order(
    pre: Seq<Seq<char>>,
    i: nat,
    acc: ArgsModel,
    fi: Seq<int>,
    pi: Seq<int>,
)
    requires
        i <= pre.len(),
        forall|j: int| 0 <= j < pre.len() ==> pre[j] != "--"@,
        subseq_at(acc.flags, pre, fi),
        subseq_at(acc.positionals, pre, pi),
        forall|j: int| 0 <= j < fi.len() ==> fi[j] < i,
        forall|j: int| 0 <= j < pi.len() ==> pi[j] < i,
    ensures
        is_subseq(sort_args(pre, i, false, acc).flags, pre),
        is_subseq(sort_args(pre, i, false, acc).positionals, pre),
    decreases pre.len() - i,
{
    if i >= pre.len() {
        assert(subseq_at(acc.flags, pre, fi));
        assert(subseq_at(acc.positionals, pre, pi));
    } else {
        let a = pre[i as int];
        if is_dashed(a) {
            if i + 1 < pre.len() && !starts_dash(pre[i + 1 as int]) {
                let acc1 = ArgsModel { options: insert_option(acc.options, a, pre[i + 1 as int]), ..acc };
                lemma_sort_keeps_order(pre, i + 2, acc1, fi, pi);
            } else {
                let acc1 = ArgsModel { flags: acc.flags.push(a), ..acc };
                let fi1 = fi.push(i as int);
                assert forall|j: int| 0 <= j < acc1.flags.len() implies 0 <= #[trigger] fi1[j] < pre.len()
                    && pre[fi1[j]] == acc1.flags[j] by {
                    if j < fi.len() {
                        assert(fi1[j] == fi[j]);
                    }
                }
                assert(subseq_at(acc1.flags, pre, fi1));
                lemma_sort_keeps_order(pre, i + 1, acc1, fi1, pi);
            }
        } else {
            let acc1 = ArgsModel { positionals: acc.positionals.push(a), ..acc };
            let pi1 = pi.push(i as int);
            assert forall|j: int| 0 <= j < acc1.positionals.len() implies 0 <= #[trigger] pi1[j] < pre.len()
                && pre[pi1[j]] == acc1.positionals[j] by {
                if j < pi.len() {
                    assert(pi1[j] == pi[j]);
                }
            }
            assert(subseq_at(acc1.positionals, pre, pi1));
            lemma_sort_keeps_order(pre, i + 1, acc1, fi, pi1);
        }
    }
}

/// What `Args::parse` does with `--`: everything after the first `--`, but further
/// `--`s, goes to the extra arguments in order, and nothing before it does; the
/// flags, options and positional arguments are those of the arguments in front of
/// the first `--` sorted alone, and the flags and the positional arguments keep the
/// order they have there.
pub proof fn lemma_args_after_double_dash(raw: Seq<Seq<char>>)
    ensures
        ({
            let k = first_double_dash(raw);
            let a = sort_args(raw, 0, false, empty_args());
            let front = sort_args(raw.take(k as int), 0, false, empty_args());
            &&& a.extra_args == after_double_dash(raw)
            &&& front.extra_args.len() == 0
            &&& a.flags == front.flags
            &&& a.options == front.options
            &&& a.positionals == front.positionals
            &&& is_subseq(a.flags, raw.take(k as int))
            &&& is_subseq(a.positionals, raw.take(k as int))
        }),
{
    let k = first_double_dash(raw);
    lemma_double_dash_from(raw, 0);
    lemma_sort_before(raw, k, 0, empty_args());
    let front = sort_args(raw.take(k as int), 0, false, empty_args());
    if k < raw.len() {
        lemma_sort_after(raw, k + 1, front);
        assert(front.extra_args + without_double_dash(raw.skip(k + 1 as int)) =~= after_double_dash(raw));
    }
    let pre = raw.take(k as int);
    assert(subseq_at(empty_args().flags, pre, Seq::<int>::empty()));
    lemma_sort_keeps_order(pre, 0, empty_args(), Seq::<int>::empty(), Seq::<int>::empty());
}

// ---------------------------------------------------------------------------
// From arguments to a configuration
// ---------------------------------------------------------------------------

/// What checking an input path gives: the path, when it exists.
pub open spec fn input_path(path: Seq<char>, exists: bool) -> Result<Seq<char>, ConfigErrorModel> {
    if exists {
        Ok(path)
    } else {
        Err(ConfigErrorModel::FileNotFound(path))
    }
}

/// Accepts an input path that exists; `exists` tells whether it does.
pub fn validate_input_path(path_str: &str, exists: bool) -> (r: Result<String, ConfigError>)
    ensures
        match input_path(path_str@, exists) {
            Ok(p) => r is Ok && r->Ok_0@ == p,
            Err(e) => r is Err && r->Err_0@ == e,
        },
{
    if exists {
        Ok(text_of(path_str))
    } else {
        Err(ConfigError::FileNotFound(text_of(path_str)))
    }
}

/// An output path is taken as given.
pub fn validate_output_path(path_str: &str) -> (r: String)
    ensures
        r@ == path_str@,
{
    text_of(path_str)
}

/// What a flag does to the configuration.
pub open spec fn apply_flag(c: ConfigModel, f: Seq<char>) -> Result<ConfigModel, ConfigErrorModel> {
    if f == "-v"@ || f == "--verbose"@ {
        Ok(ConfigModel { verbose: true, ..c })
    } else if f == "-e"@ || f == "--embed-cue"@ {
        Ok(ConfigModel { embed_cue: true, ..c })
    } else if f == "-s"@ || f == "--skip_metadata"@ {
        Ok(ConfigModel { skip_metadata: true, ..c })
    } else if f == "-n"@ || f == "--dry-run"@ {
        Ok(ConfigModel { dry_run: true, ..c })
    } else if f == "-w"@ || f == "--overwrite"@ {
        Ok(ConfigModel { overwrite: true, ..c })
    } else if f == "-h"@ || f == "--help"@ {
        Err(ConfigErrorModel::GetHelp)
    } else if f == "--about"@ || f == "--version"@ {
        Err(ConfigErrorModel::GetAbout)
    } else if f == "--pregap"@ {
        Ok(ConfigModel { include_pregap: true, ..c })
    } else if f == "--postgap"@ {
        Ok(ConfigModel { include_postgap: true, ..c })
    } else {
        Ok(c)
    }
}

/// The first `n` flags applied in order; the first error stops.
pub open spec fn apply_flags(c: ConfigModel, flags: Seq<Seq<char>>, n: nat) -> Result<ConfigModel, ConfigErrorModel>
    decreases n,
{
    if n == 0 {
        Ok(c)
    } else {
        match apply_flags(c, flags, (n - 1) as nat) {
            Ok(c1) => apply_flag(c1, flags[n - 1]),
            Err(e) => Err(e),
        }
    }
}

/// A number option's value, or the error for it.
pub open spec fn number_of(s: Seq<char>, max: nat) -> Result<nat, ConfigErrorModel> {
    match parse_unsigned(s, max) {
        Ok(v) => Ok(v),
        Err(e) => Err(ConfigErrorModel::InvalidNumber(int_error_text(e))),
    }
}

/// What an option `k` with value `v` does to the configuration; `existing` holds the
/// paths that exist.
pub open spec fn apply_option(c: ConfigModel, k: Seq<char>, v: Seq<char>, existing: Seq<Seq<char>>) -> Result<
    ConfigModel,
    ConfigErrorModel,
> {
    if k == "-i"@ || k == "--input"@ {
        match input_path(v, existing.contains(v)) {
            Ok(p) => Ok(ConfigModel { input_file: Some(p), ..c }),
            Err(e) => Err(e),
        }
    } else if k == "-o"@ || k == "--output"@ {
        Ok(ConfigModel { output_dir: Some(v), ..c })
    } else if k == "-a"@ || k == "--album-cover"@ {
        Ok(ConfigModel { album_cover: Some(v), ..c })
    } else if k == "-f"@ || k == "--format"@ {
        Ok(ConfigModel { format: v, ..c })
    } else if k == "-b"@ || k == "--bitrate"@ {
        match number_of(v, u64::MAX as nat) {
            Ok(n) => Ok(ConfigModel { bitrate: Some(n as u64), ..c }),
            Err(e) => Err(e),
        }
    } else if k == "-r"@ || k == "--sample-rate"@ {
        match number_of(v, u64::MAX as nat) {
            Ok(n) => Ok(ConfigModel { sample_rate: Some(n as u64), ..c }),
            Err(e) => Err(e),
        }
    } else if k == "-c"@ || k == "--channels"@ {
        match number_of(v, 255) {
            Ok(n) => Ok(ConfigModel { channels: Some(n as u8), ..c }),
            Err(e) => Err(e),
        }
    } else {
        Ok(c)
    }
}

/// The first `n` options applied in order; the first error stops.
pub open spec fn apply_options(
    c: ConfigModel,
    o: Seq<(Seq<char>, Seq<char>)>,
    n: nat,
    existing: Seq<Seq<char>>,
) -> Result<ConfigModel, ConfigErrorModel>
    decreases n,
{
    if n == 0 {
        Ok(c)
    } else {
        match apply_options(c, o, (n - 1) as nat, existing) {
            Ok(c1) => apply_option(c1, o[n - 1].0, o[n - 1].1, existing),
            Err(e) => Err(e),
        }
    }
}

/// The default configuration with the `ffmpeg` path from the environment, if set.
pub open spec fn initial_config(env: Option<Seq<char>>) -> ConfigModel {
    match env {
        Some(p) => ConfigModel { ffmpreg_path: p, ..default_config() },
        None => default_config(),
    }
}

/// What `parse_config` gives: the default configuration with the `ffmpeg` path from
/// the environment, then the flags, the options, the first positional argument as
/// the CUE file, the check of `validate`, and the arguments after `--`.
pub open spec fn config_spec(a: ArgsModel, env: Option<Seq<char>>, existing: Seq<Seq<char>>) -> Result<
    ConfigModel,
    ConfigErrorModel,
> {
    let c0 = initial_config(env);
    match apply_flags(c0, a.flags, a.flags.len()) {
        Err(e) => Err(e),
        Ok(c1) => match apply_options(c1, a.options, a.options.len(), existing) {
            Err(e) => Err(e),
            Ok(c2) => {
                let c3 = if a.positionals.len() > 0 {
                    match input_path(a.positionals[0], existing.contains(a.positionals[0])) {
                        Ok(p) => Ok(ConfigModel { input_cue: Some(p), ..c2 }),
                        Err(e) => Err(e),
                    }
                } else {
                    Ok(c2)
                };
                match c3 {
                    Err(e) => Err(e),
                    Ok(c3) => match validate_spec(c3) {
                        Err(e) => Err(e),
                        Ok(()) => Ok(ConfigModel { extra_args: a.extra_args, ..c3 }),
                    },
                }
            },
        },
    }
}

/// A flag that `parse_config` knows.
pub open spec fn known_flag(f: Seq<char>) -> bool {
    apply_flag(default_config(), f) != Ok::<ConfigModel, ConfigErrorModel>(default_config())
}

/// An option key that `parse_config` knows.
pub open spec fn known_option(k: Seq<char>) -> bool {
    ||| k == "-i"@ || k == "--input"@
    ||| k == "-o"@ || k == "--output"@
    ||| k == "-a"@ || k == "--album-cover"@
    ||| k == "-f"@ || k == "--format"@
    ||| k == "-b"@ || k == "--bitrate"@
    ||| k == "-r"@ || k == "--sample-rate"@
    ||| k == "-c"@ || k == "--channels"@
}

/// The texts among the first `n` of `v` that `known` does not accept, in order.
pub open spec fn unknown_of(v: Seq<Seq<char>>, n: nat, flags: bool) -> Seq<Seq<char>>
    decreases n,
{
    if n == 0 {
        Seq::empty()
    } else {
        let prev = unknown_of(v, (n - 1) as nat, flags);
        let x = v[n - 1];
        if (flags && known_flag(x)) || (!flags && known_option(x)) {
            prev
        } else {
            prev.push(x)
        }
    }
}

fn is_known_flag(f: &Vec<char>) -> (r: bool)
    ensures
        r == known_flag(f@),
{
    let mut c = Config::default();
    match apply_flag_exec(&mut c, f) {
        Ok(()) => {
            let r = c.verbose || c.embed_cue || c.skip_metadata || c.dry_run || c.overwrite
                || c.include_pregap || c.include_postgap;
            proof {
                if !r {
                    assert(c@ =~~= default_config());
                }
            }
            r
        },
        Err(_) => true,
    }
}

fn is_known_option(k: &Vec<char>) -> (r: bool)
    ensures
        r == known_option(k@),
{
    chars_are(k, "-i") || chars_are(k, "--input") || chars_are(k, "-o") || chars_are(k, "--output")
        || chars_are(k, "-a") || chars_are(k, "--album-cover") || chars_are(k, "-f") || chars_are(
        k,
        "--format",
    ) || chars_are(k, "-b") || chars_are(k, "--bitrate") || chars_are(k, "-r") || chars_are(
        k,
        "--sample-rate",
    ) || chars_are(k, "-c") || chars_are(k, "--channels")
}

/// A flag at which `parse_config` stops reading: a request for help or for the
/// version.
pub open spec fn stops_flag(f: Seq<char>) -> bool {
    apply_flag(default_config(), f) is Err
}

/// An option at which `parse_config` fails: an input path that does not exist, or a
/// number that does not parse.
pub open spec fn fails_option(k: Seq<char>, v: Seq<char>, existing: Seq<Seq<char>>) -> bool {
    apply_option(default_config(), k, v, existing) is Err
}

/// How many of the first `n` flags `parse_config` reads and passes before one stops
/// it.
pub open spec fn flags_passed(flags: Seq<Seq<char>>, n: nat) -> nat
    decreases n,
{
    if n == 0 {
        0
    } else {
        let m = flags_passed(flags, (n - 1) as nat);
        if m == n - 1 && !stops_flag(flags[n - 1]) {
            n
        } else {
            m
        }
    }
}

/// How many of the first `n` options `parse_config` reads and passes before one
/// fails.
pub open spec fn options_passed(o: Seq<(Seq<char>, Seq<char>)>, n: nat, existing: Seq<Seq<char>>) -> nat
    decreases n,
{
    if n == 0 {
        0
    } else {
        let m = options_passed(o, (n - 1) as nat, existing);
        if m == n - 1 && !fails_option(o[n - 1].0, o[n - 1].1, existing) {
            n
        } else {
            m
        }
    }
}

/// The keys of the options, in order.
pub open spec fn option_keys(o: Seq<(Seq<char>, Seq<char>)>) -> Seq<Seq<char>> {
    o.map_values(|p: (Seq<char>, Seq<char>)| p.0)
}

/// The unknown-flag notices that `parse_config` gives: the flags it does not know,
/// in order, among those it reads before a flag stops it.
pub open spec fn flag_notices(a: ArgsModel) -> Seq<Seq<char>> {
    unknown_of(a.flags, flags_passed(a.flags, a.flags.len()), true)
}

/// The unknown-option notices that `parse_config` gives: none where a flag stops it;
/// else the option keys it does not know, in order, among those it reads before an
/// option fails.
pub open spec fn option_notices(a: ArgsModel, existing: Seq<Seq<char>>) -> Seq<Seq<char>> {
    if flags_passed(a.flags, a.flags.len()) < a.flags.len() {
        Seq::empty()
    } else {
        unknown_of(option_keys(a.options), options_passed(a.options, a.options.len(), existing), false)
    }
}

/// Once a flag stops the reading, no later flag is read.
proof fn lemma_flags_passed_stops(flags: Seq<Seq<char>>, i: nat, n: nat)
    requires
        i < n,
        flags_passed(flags, i) == i,
        stops_flag(flags[i as int]),
    ensures
        flags_passed(flags, n) == i,
    decreases n,
{
    if n > i + 1 {
        lemma_flags_passed_stops(flags, i, (n - 1) as nat);
    }
}

/// Once an option fails, no later option is read.
proof fn lemma_options_passed_stops(o: Seq<(Seq<char>, Seq<char>)>, i: nat, n: nat, existing: Seq<Seq<char>>)
    requires
        i < n,
        options_passed(o, i, existing) == i,
        fails_option(o[i as int].0, o[i as int].1, existing),
    ensures
        options_passed(o, n, existing) == i,
    decreases n,
{
    if n > i + 1 {
        lemma_options_passed_stops(o, i, (n - 1) as nat, existing);
    }
}

/// Applying flags fails exactly where a flag stops the reading, whatever the
/// configuration they start from.
proof fn lemma_apply_flags_err(c: ConfigModel, flags: Seq<Seq<char>>, n: nat)
    requires
        n <= flags.len(),
    ensures
        flags_passed(flags, n) <= n,
        apply_flags(c, flags, n) is Err <==> flags_passed(flags, n) < n,
    decreases n,
{
    if n > 0 {
        lemma_apply_flags_err(c, flags, (n - 1) as nat);
    }
}

/// Applying options fails exactly where an option fails on its own, whatever the
/// configuration they start from.
proof fn lemma_apply_options_err(
    c: ConfigModel,
    o: Seq<(Seq<char>, Seq<char>)>,
    n: nat,
    existing: Seq<Seq<char>>,
)
    requires
        n <= o.len(),
    ensures
        options_passed(o, n, existing) <= n,
        apply_options(c, o, n, existing) is Err <==> options_passed(o, n, existing) < n,
    decreases n,
{
    if n > 0 {
        lemma_apply_options_err(c, o, (n - 1) as nat, existing);
    }
}

/// The notices end where `parse_config` stops: where a flag stops the reading of the
/// flags, or an option fails, `parse_config` gives an error; where neither happens,
/// the flags and options are all read.
pub proof fn lemma_notices_end_where_config_stops(
    a: ArgsModel,
    env: Option<Seq<char>>,
    existing: Seq<Seq<char>>,
)
    ensures
        flags_passed(a.flags, a.flags.len()) < a.flags.len() ==> config_spec(a, env, existing) is Err,
        options_passed(a.options, a.options.len(), existing) < a.options.len() ==> config_spec(
            a,
            env,
            existing,
        ) is Err,
        flags_passed(a.flags, a.flags.len()) == a.flags.len() ==> apply_flags(
            initial_config(env),
            a.flags,
            a.flags.len(),
        ) is Ok,
        ({
            match apply_flags(initial_config(env), a.flags, a.flags.len()) {
                Ok(c1) => options_passed(a.options, a.options.len(), existing) == a.options.len()
                    ==> apply_options(c1, a.options, a.options.len(), existing) is Ok,
                Err(_) => true,
            }
        }),
{
    let c0 = initial_config(env);
    lemma_apply_flags_err(c0, a.flags, a.flags.len());
    if let Ok(c1) = apply_flags(c0, a.flags, a.flags.len()) {
        lemma_apply_options_err(c1, a.options, a.options.len(), existing);
    }
}

/// How many flags `parse_config` reads and passes.
fn flags_read(v: &Vec<Vec<char>>) -> (r: usize)
    ensures
        r == flags_passed(v.deep_view(), v.len() as nat),
        r <= v.len(),
{
    let mut i: usize = 0;
    while i < v.len()
        invariant
            i <= v.len(),
            flags_passed(v.deep_view(), i as nat) == i,
        decreases v.len() - i,
    {
        assert(v.deep_view()[i as int] == v[i as int]@);
        let mut c = Config::default();
        if apply_flag_exec(&mut c, &v[i]).is_err() {
            proof {
                lemma_flags_passed_stops(v.deep_view(), i as nat, v.len() as nat);
            }
            return i;
        }
        i = i + 1;
    }
    i
}

/// The texts among the first `n` of `v` that are not known flags (or option keys),
/// in order.
fn unknown_exec(v: &Vec<Vec<char>>, n: usize, flags: bool) -> (r: Vec<String>)
    requires
        n <= v.len(),
    ensures
        r.deep_view() == unknown_of(v.deep_view(), n as nat, flags),
{
    let mut out: Vec<String> = Vec::new();
    let mut i: usize = 0;
    while i < n
        invariant
            i <= n <= v.len(),
            out.deep_view() == unknown_of(v.deep_view(), i as nat, flags),
        decreases n - i,
    {
        assert(v.deep_view()[i as int] == v[i as int]@);
        let known = if flags {
            is_known_flag(&v[i])
        } else {
            is_known_option(&v[i])
        };
        if !known {
            let ghost before = out.deep_view();
            let s = string_of(&v[i]);
            out.push(s);
            assert(out.deep_view() =~~= before.push(v[i as int]@));
        }
        i = i + 1;
    }
    out
}

impl Args {
    /// The flags that `parse_config` reads and does not know, in order: those before
    /// a request for help or for the version, which stops it.
    pub fn unknown_flags(&self) -> (r: Vec<String>)
        ensures
            r.deep_view() == flag_notices(self@),
    {
        let v = strings_chars(&self.flags);
        let n = flags_read(&v);
        unknown_exec(&v, n, true)
    }

    /// The option keys that `parse_config` reads and does not know, in order: none
    /// where a flag stops it, else those before the first option that fails.
    /// `existing` holds the paths that exist.
    pub fn unknown_options(&self, existing: &Vec<String>) -> (r: Vec<String>)
        ensures
            r.deep_view() == option_notices(self@, existing.deep_view()),
    {
        let fv = strings_chars(&self.flags);
        if flags_read(&fv) < fv.len() {
            let none: Vec<String> = Vec::new();
            assert(none.deep_view() =~~= Seq::<Seq<char>>::empty());
            return none;
        }
        let ex = strings_chars(existing);
        let mut keys: Vec<Vec<char>> = Vec::new();
        let ghost all = option_keys(self@.options);
        let ghost o = self@.options;
        let mut i: usize = 0;
        let mut passed: usize = 0;
        let mut stopped = false;
        while i < self.options.len()
            invariant
                i <= self.options.len(),
                o == self@.options,
                ex.deep_view() == existing.deep_view(),
                all == option_keys(o),
                keys.deep_view() == all.take(i as int),
                passed <= i,
                !stopped ==> passed == i && options_passed(o, i as nat, existing.deep_view()) == i,
                stopped ==> options_passed(o, o.len(), existing.deep_view()) == passed,
            decreases self.options.len() - i,
        {
            let ghost before = keys.deep_view();
            let k = crate::text::chars_of(self.options[i].0.as_str());
            let v = crate::text::chars_of(self.options[i].1.as_str());
            assert(o[i as int] == pair_view(self.options@[i as int]));
            assert(all[i as int] == k@);
            if !stopped {
                let mut c = Config::default();
                if apply_option_exec(&mut c, &k, &v, &ex).is_err() {
                    proof {
                        lemma_options_passed_stops(o, i as nat, o.len(), existing.deep_view());
                    }
                    stopped = true;
                } else {
                    passed = i + 1;
                }
            }
            let ghost kv = k@;
            keys.push(k);
            assert(keys.deep_view() =~~= before.push(kv));
            i = i + 1;
            assert(all.take(i as int) =~~= all.take(i - 1).push(kv));
        }
        assert(all.take(self.options.len() as int) =~= all);
        unknown_exec(&keys, passed, false)
    }
}

fn apply_flag_exec(c: &mut Config, f: &Vec<char>) -> (r: Result<(), ConfigError>)
    ensures
        match apply_flag(old(c)@, f@) {
            Ok(m) => r is Ok && final(c)@ == m,
            Err(e) => r is Err && r->Err_0@ == e,
        },
{
    if chars_are(f, "-v") || chars_are(f, "--verbose") {
        c.verbose = true;
    } else if chars_are(f, "-e") || chars_are(f, "--embed-cue") {
        c.embed_cue = true;
    } else if chars_are(f, "-s") || chars_are(f, "--skip_metadata") {
        c.skip_metadata = true;
    } else if chars_are(f, "-n") || chars_are(f, "--dry-run") {
        c.dry_run = true;
    } else if chars_are(f, "-w") || chars_are(f, "--overwrite") {
        c.overwrite = true;
    } else if chars_are(f, "-h") || chars_are(f, "--help") {
        return Err(ConfigError::GetHelp);
    } else if chars_are(f, "--about") || chars_are(f, "--version") {
        return Err(ConfigError::GetAbout);
    } else if chars_are(f, "--pregap") {
        c.include_pregap = true;
    } else if chars_are(f, "--postgap") {
        c.include_postgap = true;
    }
    Ok(())
}

fn number_exec(s: &Vec<char>, max: u64) -> (r: Result<u64, ConfigError>)
    ensures
        match number_of(s@, max as nat) {
            Ok(n) => r == Ok::<u64, ConfigError>(n as u64),
            Err(e) => r is Err && r->Err_0@ == e,
        },
{
    match parse_unsigned_chars(s, max) {
        Ok(n) => Ok(n),
        Err(e) => Err(ConfigError::InvalidNumber(e.message())),
    }
}

/// Whether `v` is one of `list`.
fn contains_chars(list: &Vec<Vec<char>>, v: &Vec<char>) -> (r: bool)
    ensures
        r == list.deep_view().contains(v@),
{
    let mut i: usize = 0;
    while i < list.len()
        invariant
            i <= list.len(),
            forall|j: int| 0 <= j < i ==> list.deep_view()[j] != v@,
        decreases list.len() - i,
    {
        assert(list.deep_view()[i as int] == list[i as int]@);
        if chars_eq(&list[i], v) {
            return true;
        }
        i = i + 1;
    }
    proof {
        if list.deep_view().contains(v@) {
            let j: int = choose|j: int| 0 <= j < list.deep_view().len() && list.deep_view()[j] == v@;
            assert(list.deep_view()[j] != v@);
        }
    }
    false
}

fn apply_option_exec(c: &mut Config, k: &Vec<char>, v: &Vec<char>, existing: &Vec<Vec<char>>) -> (r: Result<(), ConfigError>)
    ensures
        match apply_option(old(c)@, k@, v@, existing.deep_view()) {
            Ok(m) => r is Ok && final(c)@ == m,
            Err(e) => r is Err && r->Err_0@ == e,
        },
{
    if chars_are(k, "-i") || chars_are(k, "--input") {
        if contains_chars(existing, v) {
            c.input_file = Some(string_of(v));
        } else {
            return Err(ConfigError::FileNotFound(string_of(v)));
        }
    } else if chars_are(k, "-o") || chars_are(k, "--output") {
        c.output_dir = Some(string_of(v));
    } else if chars_are(k, "-a") || chars_are(k, "--album-cover") {
        c.album_cover = Some(string_of(v));
    } else if chars_are(k, "-f") || chars_are(k, "--format") {
        c.format = string_of(v);
    } else if chars_are(k, "-b") || chars_are(k, "--bitrate") {
        c.bitrate = Some(number_exec(v, u64::MAX)?);
    } else if chars_are(k, "-r") || chars_are(k, "--sample-rate") {
        c.sample_rate = Some(number_exec(v, u64::MAX)?);
    } else if chars_are(k, "-c") || chars_are(k, "--channels") {
        let n: u64 = number_exec(v, 255)?;
        c.channels = Some(n as u8);
    }
    Ok(())
}

/// Turns sorted arguments into a configuration. `ffmpeg_env` is the value of the
/// `ffmpeg` environment variable, if set; `existing` holds the paths among the
/// arguments that exist.
pub fn parse_config(args: &Args, ffmpeg_env: &Option<String>, existing: &Vec<String>) -> (r: Result<Config, ConfigError>)
    ensures
        match config_spec(args@, ffmpeg_env.deep_view(), existing.deep_view()) {
            Ok(m) => r is Ok && r->Ok_0@ == m,
            Err(e) => r is Err && r->Err_0@ == e,
        },
{
    let ex = strings_chars(existing);
    let mut config = Config::default();
    match ffmpeg_env {
        Some(p) => config.ffmpreg_path = p.clone(),
        None => {},
    }
    let ghost c0 = config@;
    let flags = strings_chars(&args.flags);
    let mut i: usize = 0;
    while i < flags.len()
        invariant
            i <= flags.len(),
            flags.deep_view() == args@.flags,
            c0 == initial_config(ffmpeg_env.deep_view()),
            apply_flags(c0, args@.flags, i as nat) == Ok::<ConfigModel, ConfigErrorModel>(config@),
        decreases flags.len() - i,
    {
        assert(args@.flags[i as int] == flags[i as int]@);
        match apply_flag_exec(&mut config, &flags[i]) {
            Ok(()) => {},
            Err(e) => {
                proof {
                    lemma_apply_flags_stops(c0, args@.flags, (i + 1) as nat, args@.flags.len());
                }
                return Err(e);
            },
        }
        i = i + 1;
    }
    let ghost c1 = config@;
    let mut j: usize = 0;
    while j < args.options.len()
        invariant
            j <= args.options.len(),
            ex.deep_view() == existing.deep_view(),
            c0 == initial_config(ffmpeg_env.deep_view()),
            apply_flags(c0, args@.flags, args@.flags.len()) == Ok::<ConfigModel, ConfigErrorModel>(c1),
            apply_options(c1, args@.options, j as nat, existing.deep_view()) == Ok::<ConfigModel, ConfigErrorModel>(config@),
        decreases args.options.len() - j,
    {
        let k = crate::text::chars_of(args.options[j].0.as_str());
        let v = crate::text::chars_of(args.options[j].1.as_str());
        assert(args@.options[j as int] == pair_view(args.options@[j as int]));
        match apply_option_exec(&mut config, &k, &v, &ex) {
            Ok(()) => {},
            Err(e) => {
                proof {
                    lemma_apply_options_stops(c1, args@.options, (j + 1) as nat, args@.options.len(), existing.deep_view());
                }
                return Err(e);
            },
        }
        j = j + 1;
    }
    if args.positionals.len() > 0 {
        let p = crate::text::chars_of(args.positionals[0].as_str());
        assert(args@.positionals[0] == p@);
        if contains_chars(&ex, &p) {
            config.input_cue = Some(string_of(&p));
        } else {
            return Err(ConfigError::FileNotFound(string_of(&p)));
        }
    }
    match config.validate() {
        Ok(()) => {},
        Err(e) => return Err(e),
    }
    let mut extra: Vec<String> = Vec::new();
    let mut t: usize = 0;
    while t < args.extra_args.len()
        invariant
            t <= args.extra_args.len(),
            extra.deep_view() == args@.extra_args.take(t as int),
        decreases args.extra_args.len() - t,
    {
        let ghost before = extra.deep_view();
        let s = args.extra_args[t].clone();
        extra.push(s);
        assert(extra.deep_view() =~~= before.push(s@));
        t = t + 1;
        assert(args@.extra_args.take(t as int) =~~= args@.extra_args.take(t - 1).push(s@));
    }
    assert(args@.extra_args.take(args.extra_args.len() as int) =~~= args@.extra_args);
    config.extra_args = extra;
    Ok(config)
}

pub proof fn lemma_apply_flags_stops(c: ConfigModel, flags: Seq<Seq<char>>, k: nat, n: nat)
    requires
        k <= n,
        apply_flags(c, flags, k) is Err,
    ensures
        apply_flags(c, flags, n) == apply_flags(c, flags, k),
    decreases n - k,
{
    if k < n {
        lemma_apply_flags_stops(c, flags, k, (n - 1) as nat);
    }
}

pub proof fn lemma_apply_options_stops(
    c: ConfigModel,
    o: Seq<(Seq<char>, Seq<char>)>,
    k: nat,
    n: nat,
    existing: Seq<Seq<char>>,
)
    requires
        k <= n,
        apply_options(c, o, k, existing) is Err,
    ensures
        apply_options(c, o, n, existing) == apply_options(c, o, k, existing),
    decreases n - k,
{
    if k < n {
        lemma_apply_options_stops(c, o, k, (n - 1) as nat, existing);
    }
}


proof fn lemma_flags_keep_inputs(c: ConfigModel, flags: Seq<Seq<char>>, n: nat)
    ensures
        apply_flags(c, flags, n) matches Ok(c2) ==> c2.input_file == c.input_file && c2.input_cue
            == c.input_cue,
    decreases n,
{
    if n > 0 {
        lemma_flags_keep_inputs(c, flags, (n - 1) as nat);
    }
}

proof fn lemma_options_inputs_exist(
    c: ConfigModel,
    o: Seq<(Seq<char>, Seq<char>)>,
    n: nat,
    existing: Seq<Seq<char>>,
)
    requires
        c.input_file matches Some(p) ==> existing.contains(p),
    ensures
        apply_options(c, o, n, existing) matches Ok(c2) ==> (c2.input_file matches Some(p)
            ==> existing.contains(p)) && c2.input_cue == c.input_cue,
    decreases n,
{
    if n > 0 {
        lemma_options_inputs_exist(c, o, (n - 1) as nat, existing);
    }
}

/// An accepted configuration has a positive bitrate, if any, and names only input
/// files that exist.
pub proof fn lemma_config_checked(a: ArgsModel, env: Option<Seq<char>>, existing: Seq<Seq<char>>)
    ensures
        config_spec(a, env, existing) matches Ok(c) ==> {
            &&& c.bitrate != Some(0u64)
            &&& (c.input_file matches Some(p) ==> existing.contains(p))
            &&& (c.input_cue matches Some(p) ==> existing.contains(p))
        },
{
    let c0 = initial_config(env);
    lemma_flags_keep_inputs(c0, a.flags, a.flags.len());
    if let Ok(c1) = apply_flags(c0, a.flags, a.flags.len()) {
        lemma_options_inputs_exist(c1, a.options, a.options.len(), existing);
    }
}


// ---------------------------------------------------------------------------
// What each argument sets
// ---------------------------------------------------------------------------

/// Whether one of the first `n` flags is `f1` or `f2`.
pub open spec fn has_flag(flags: Seq<Seq<char>>, n: nat, f1: Seq<char>, f2: Seq<char>) -> bool
    decreases n,
{
    if n == 0 {
        false
    } else {
        flags[n - 1] == f1 || flags[n - 1] == f2 || has_flag(flags, (n - 1) as nat, f1, f2)
    }
}

/// The value of the last option among the first `n` whose key is `k1` or `k2`.
pub open spec fn last_option(o: Seq<(Seq<char>, Seq<char>)>, n: nat, k1: Seq<char>, k2: Seq<char>) -> Option<
    Seq<char>,
>
    decreases n,
{
    if n == 0 {
        None
    } else if o[n - 1].0 == k1 || o[n - 1].0 == k2 {
        Some(o[n - 1].1)
    } else {
        last_option(o, (n - 1) as nat, k1, k2)
    }
}

/// The number setting that the option `v` gives, where it is set; `old` where not.
pub open spec fn number_set(v: Option<Seq<char>>, max: nat, old: Option<nat>, now: Option<nat>) -> bool {
    match v {
        Some(t) => parse_unsigned(t, max) is Ok && now == Some(parse_unsigned(t, max)->Ok_0),
        None => now == old,
    }
}

/// A `u8` setting as a natural number.
pub open spec fn opt_u8(v: Option<u8>) -> Option<nat> {
    match v {
        Some(x) => Some(x as nat),
        None => None,
    }
}

/// A `u64` setting as a natural number.
pub open spec fn opt_u64(v: Option<u64>) -> Option<nat> {
    match v {
        Some(x) => Some(x as nat),
        None => None,
    }
}

/// The flag texts, letter by letter, so that they are told apart.
proof fn lemma_flag_texts()
    ensures
        "-v"@.len() == 2 && "-v"@[0] == '-' && "-v"@[1] == 'v',
        "--verbose"@.len() == 9 && "--verbose"@[0] == '-' && "--verbose"@[1] == '-' && "--verbose"@[2] == 'v' && "--verbose"@[3] == 'e' && "--verbose"@[4] == 'r' && "--verbose"@[5] == 'b' && "--verbose"@[6] == 'o',
        "-e"@.len() == 2 && "-e"@[0] == '-' && "-e"@[1] == 'e',
        "--embed-cue"@.len() == 11 && "--embed-cue"@[0] == '-' && "--embed-cue"@[1] == '-' && "--embed-cue"@[2] == 'e' && "--embed-cue"@[3] == 'm' && "--embed-cue"@[4] == 'b' && "--embed-cue"@[5] == 'e' && "--embed-cue"@[6] == 'd',
        "-s"@.len() == 2 && "-s"@[0] == '-' && "-s"@[1] == 's',
        "--skip_metadata"@.len() == 15 && "--skip_metadata"@[0] == '-' && "--skip_metadata"@[1] == '-' && "--skip_metadata"@[2] == 's' && "--skip_metadata"@[3] == 'k' && "--skip_metadata"@[4] == 'i' && "--skip_metadata"@[5] == 'p' && "--skip_metadata"@[6] == '_',
        "-n"@.len() == 2 && "-n"@[0] == '-' && "-n"@[1] == 'n',
        "--dry-run"@.len() == 9 && "--dry-run"@[0] == '-' && "--dry-run"@[1] == '-' && "--dry-run"@[2] == 'd' && "--dry-run"@[3] == 'r' && "--dry-run"@[4] == 'y' && "--dry-run"@[5] == '-' && "--dry-run"@[6] == 'r',
        "-w"@.len() == 2 && "-w"@[0] == '-' && "-w"@[1] == 'w',
        "--overwrite"@.len() == 11 && "--overwrite"@[0] == '-' && "--overwrite"@[1] == '-' && "--overwrite"@[2] == 'o' && "--overwrite"@[3] == 'v' && "--overwrite"@[4] == 'e' && "--overwrite"@[5] == 'r' && "--overwrite"@[6] == 'w',
        "-h"@.len() == 2 && "-h"@[0] == '-' && "-h"@[1] == 'h',
        "--help"@.len() == 6 && "--help"@[0] == '-' && "--help"@[1] == '-' && "--help"@[2] == 'h' && "--help"@[3] == 'e' && "--help"@[4] == 'l' && "--help"@[5] == 'p',
        "--about"@.len() == 7 && "--about"@[0] == '-' && "--about"@[1] == '-' && "--about"@[2] == 'a' && "--about"@[3] == 'b' && "--about"@[4] == 'o' && "--about"@[5] == 'u' && "--about"@[6] == 't',
        "--version"@.len() == 9 && "--version"@[0] == '-' && "--version"@[1] == '-' && "--version"@[2] == 'v' && "--version"@[3] == 'e' && "--version"@[4] == 'r' && "--version"@[5] == 's' && "--version"@[6] == 'i',
        "--pregap"@.len() == 8 && "--pregap"@[0] == '-' && "--pregap"@[1] == '-' && "--pregap"@[2] == 'p' && "--pregap"@[3] == 'r' && "--pregap"@[4] == 'e' && "--pregap"@[5] == 'g' && "--pregap"@[6] == 'a',
        "--postgap"@.len() == 9 && "--postgap"@[0] == '-' && "--postgap"@[1] == '-' && "--postgap"@[2] == 'p' && "--postgap"@[3] == 'o' && "--postgap"@[4] == 's' && "--postgap"@[5] == 't' && "--postgap"@[6] == 'g',
{
    reveal_strlit("-v");
    reveal_strlit("--verbose");
    reveal_strlit("-e");
    reveal_strlit("--embed-cue");
    reveal_strlit("-s");
    reveal_strlit("--skip_metadata");
    reveal_strlit("-n");
    reveal_strlit("--dry-run");
    reveal_strlit("-w");
    reveal_strlit("--overwrite");
    reveal_strlit("-h");
    reveal_strlit("--help");
    reveal_strlit("--about");
    reveal_strlit("--version");
    reveal_strlit("--pregap");
    reveal_strlit("--postgap");
}

/// The option keys, letter by letter, so that they are told apart.
proof fn lemma_option_texts()
    ensures
        "-i"@.len() == 2 && "-i"@[0] == '-' && "-i"@[1] == 'i',
        "--input"@.len() == 7 && "--input"@[0] == '-' && "--input"@[1] == '-' && "--input"@[2] == 'i' && "--input"@[3] == 'n' && "--input"@[4] == 'p' && "--input"@[5] == 'u' && "--input"@[6] == 't',
        "-o"@.len() == 2 && "-o"@[0] == '-' && "-o"@[1] == 'o',
        "--output"@.len() == 8 && "--output"@[0] == '-' && "--output"@[1] == '-' && "--output"@[2] == 'o' && "--output"@[3] == 'u' && "--output"@[4] == 't' && "--output"@[5] == 'p' && "--output"@[6] == 'u',
        "-a"@.len() == 2 && "-a"@[0] == '-' && "-a"@[1] == 'a',
        "--album-cover"@.len() == 13 && "--album-cover"@[0] == '-' && "--album-cover"@[1] == '-' && "--album-cover"@[2] == 'a' && "--album-cover"@[3] == 'l' && "--album-cover"@[4] == 'b' && "--album-cover"@[5] == 'u' && "--album-cover"@[6] == 'm',
        "-f"@.len() == 2 && "-f"@[0] == '-' && "-f"@[1] == 'f',
        "--format"@.len() == 8 && "--format"@[0] == '-' && "--format"@[1] == '-' && "--format"@[2] == 'f' && "--format"@[3] == 'o' && "--format"@[4] == 'r' && "--format"@[5] == 'm' && "--format"@[6] == 'a',
        "-b"@.len() == 2 && "-b"@[0] == '-' && "-b"@[1] == 'b',
        "--bitrate"@.len() == 9 && "--bitrate"@[0] == '-' && "--bitrate"@[1] == '-' && "--bitrate"@[2] == 'b' && "--bitrate"@[3] == 'i' && "--bitrate"@[4] == 't' && "--bitrate"@[5] == 'r' && "--bitrate"@[6] == 'a',
        "-r"@.len() == 2 && "-r"@[0] == '-' && "-r"@[1] == 'r',
        "--sample-rate"@.len() == 13 && "--sample-rate"@[0] == '-' && "--sample-rate"@[1] == '-' && "--sample-rate"@[2] == 's' && "--sample-rate"@[3] == 'a' && "--sample-rate"@[4] == 'm' && "--sample-rate"@[5] == 'p' && "--sample-rate"@[6] == 'l',
        "-c"@.len() == 2 && "-c"@[0] == '-' && "-c"@[1] == 'c',
        "--channels"@.len() == 10 && "--channels"@[0] == '-' && "--channels"@[1] == '-' && "--channels"@[2] == 'c' && "--channels"@[3] == 'h' && "--channels"@[4] == 'a' && "--channels"@[5] == 'n' && "--channels"@[6] == 'n',
{
    reveal_strlit("-i");
    reveal_strlit("--input");
    reveal_strlit("-o");
    reveal_strlit("--output");
    reveal_strlit("-a");
    reveal_strlit("--album-cover");
    reveal_strlit("-f");
    reveal_strlit("--format");
    reveal_strlit("-b");
    reveal_strlit("--bitrate");
    reveal_strlit("-r");
    reveal_strlit("--sample-rate");
    reveal_strlit("-c");
    reveal_strlit("--channels");
}

/// The flags set each switch whose flag is among them and change nothing else.
proof fn lemma_flags_set(c: ConfigModel, flags: Seq<Seq<char>>, n: nat)
    requires
        n <= flags.len(),
    ensures
        apply_flags(c, flags, n) matches Ok(c1) ==> {
            &&& c1.verbose == (c.verbose || has_flag(flags, n, "-v"@, "--verbose"@))
            &&& c1.embed_cue == (c.embed_cue || has_flag(flags, n, "-e"@, "--embed-cue"@))
            &&& c1.skip_metadata == (c.skip_metadata || has_flag(flags, n, "-s"@, "--skip_metadata"@))
            &&& c1.dry_run == (c.dry_run || has_flag(flags, n, "-n"@, "--dry-run"@))
            &&& c1.overwrite == (c.overwrite || has_flag(flags, n, "-w"@, "--overwrite"@))
            &&& c1.include_pregap == (c.include_pregap || has_flag(flags, n, "--pregap"@, "--pregap"@))
            &&& c1.include_postgap == (c.include_postgap || has_flag(flags, n, "--postgap"@, "--postgap"@))
            &&& c1.format == c.format
            &&& c1.output_dir == c.output_dir
            &&& c1.album_cover == c.album_cover
            &&& c1.input_file == c.input_file
            &&& c1.input_cue == c.input_cue
            &&& c1.bitrate == c.bitrate
            &&& c1.sample_rate == c.sample_rate
            &&& c1.channels == c.channels
            &&& c1.ffmpreg_path == c.ffmpreg_path
            &&& c1.extra_args == c.extra_args
        },
    decreases n,
{
    lemma_flag_texts();
    if n > 0 {
        lemma_flags_set(c, flags, (n - 1) as nat);
        if let Ok(c0) = apply_flags(c, flags, (n - 1) as nat) {
            let x = flags[n - 1];
            if let Ok(c1) = apply_flag(c0, x) {
                assert(c1.verbose == (c0.verbose || x == "-v"@ || x == "--verbose"@));
                assert(c1.embed_cue == (c0.embed_cue || x == "-e"@ || x == "--embed-cue"@));
                assert(c1.skip_metadata == (c0.skip_metadata || x == "-s"@ || x == "--skip_metadata"@));
                assert(c1.dry_run == (c0.dry_run || x == "-n"@ || x == "--dry-run"@));
                assert(c1.overwrite == (c0.overwrite || x == "-w"@ || x == "--overwrite"@));
                assert(c1.include_pregap == (c0.include_pregap || x == "--pregap"@));
                assert(c1.include_postgap == (c0.include_postgap || x == "--postgap"@));
            }
        }
    }
}

/// The options set each setting to the value of its last option and change nothing
/// else.
proof fn lemma_options_set(c: ConfigModel, o: Seq<(Seq<char>, Seq<char>)>, n: nat, existing: Seq<Seq<char>>)
    requires
        n <= o.len(),
    ensures
        apply_options(c, o, n, existing) matches Ok(c2) ==> {
            &&& c2.format == (match last_option(o, n, "-f"@, "--format"@) {
                Some(v) => v,
                None => c.format,
            })
            &&& c2.output_dir == (match last_option(o, n, "-o"@, "--output"@) {
                Some(v) => Some(v),
                None => c.output_dir,
            })
            &&& c2.album_cover == (match last_option(o, n, "-a"@, "--album-cover"@) {
                Some(v) => Some(v),
                None => c.album_cover,
            })
            &&& c2.input_file == (match last_option(o, n, "-i"@, "--input"@) {
                Some(v) => Some(v),
                None => c.input_file,
            })
            &&& number_set(last_option(o, n, "-b"@, "--bitrate"@), u64::MAX as nat, opt_u64(c.bitrate), opt_u64(c2.bitrate))
            &&& number_set(
                last_option(o, n, "-r"@, "--sample-rate"@),
                u64::MAX as nat,
                opt_u64(c.sample_rate),
                opt_u64(c2.sample_rate),
            )
            &&& number_set(last_option(o, n, "-c"@, "--channels"@), 255, opt_u8(c.channels), opt_u8(c2.channels))
            &&& c2.verbose == c.verbose && c2.embed_cue == c.embed_cue && c2.skip_metadata == c.skip_metadata
            &&& c2.dry_run == c.dry_run && c2.overwrite == c.overwrite
            &&& c2.include_pregap == c.include_pregap && c2.include_postgap == c.include_postgap
            &&& c2.input_cue == c.input_cue
            &&& c2.ffmpreg_path == c.ffmpreg_path
            &&& c2.extra_args == c.extra_args
        },
    decreases n,
{
    lemma_option_texts();
    if n > 0 {
        lemma_options_set(c, o, (n - 1) as nat, existing);
    }
}

/// What an accepted configuration holds: each switch is on exactly when its flag was
/// given; the format, output directory, album cover, input file, bitrate, sample rate
/// and channel count are those of the last option that names them, with the
/// defaults (`flac`, `.`, none) otherwise; the CUE file is the first positional
/// argument; the `ffmpeg` path comes from the environment, else `ffmpeg`; and the
/// extra arguments are those after `--`.
pub proof fn lemma_config_settings(a: ArgsModel, env: Option<Seq<char>>, existing: Seq<Seq<char>>)
    ensures
        config_spec(a, env, existing) matches Ok(m) ==> {
            let fl = a.flags;
            let n = fl.len();
            let o = a.options;
            let k = o.len();
            &&& m.verbose == has_flag(fl, n, "-v"@, "--verbose"@)
            &&& m.embed_cue == has_flag(fl, n, "-e"@, "--embed-cue"@)
            &&& m.skip_metadata == has_flag(fl, n, "-s"@, "--skip_metadata"@)
            &&& m.dry_run == has_flag(fl, n, "-n"@, "--dry-run"@)
            &&& m.overwrite == has_flag(fl, n, "-w"@, "--overwrite"@)
            &&& m.include_pregap == has_flag(fl, n, "--pregap"@, "--pregap"@)
            &&& m.include_postgap == has_flag(fl, n, "--postgap"@, "--postgap"@)
            &&& m.format == (match last_option(o, k, "-f"@, "--format"@) {
                Some(v) => v,
                None => "flac"@,
            })
            &&& m.output_dir == (match last_option(o, k, "-o"@, "--output"@) {
                Some(v) => Some(v),
                None => Some("."@),
            })
            &&& m.album_cover == last_option(o, k, "-a"@, "--album-cover"@)
            &&& m.input_file == last_option(o, k, "-i"@, "--input"@)
            &&& number_set(last_option(o, k, "-b"@, "--bitrate"@), u64::MAX as nat, None, opt_u64(m.bitrate))
            &&& number_set(last_option(o, k, "-r"@, "--sample-rate"@), u64::MAX as nat, None, opt_u64(m.sample_rate))
            &&& number_set(last_option(o, k, "-c"@, "--channels"@), 255, None, opt_u8(m.channels))
            &&& m.input_cue == (if a.positionals.len() > 0 {
                Some(a.positionals[0])
            } else {
                None
            })
            &&& m.ffmpreg_path == (match env {
                Some(p) => p,
                None => "ffmpeg"@,
            })
            &&& m.extra_args == a.extra_args
        },
{
    let c0 = initial_config(env);
    lemma_flags_set(c0, a.flags, a.flags.len());
    if let Ok(c1) = apply_flags(c0, a.flags, a.flags.len()) {
        lemma_options_set(c1, a.options, a.options.len(), existing);
    }
}
} // verus!
