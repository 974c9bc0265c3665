//! The command line: `-key value` pairs, the configuration they build, and
//! the help screen.
use vstd::prelude::*;

use crate::net::SockAddr;
use crate::service::{default_config, or_keep, ServiceConfig, ServiceConfigView};
use crate::text::{
    chars_eq_str, chars_of, comma_list, copy_opt_strings, decimal_value, digit_value, is_digit, all_digits, unsigned_digits, parse_decimal, parse_unsigned, split_comma_list,
    split_whitespace_chars, starts_with, starts_with_char, string_from_chars, strings_from_pieces,
    trim_start_char, trim_start_matches_char, words,
};

verus! {

broadcast use vstd::string::group_string_axioms;

/// The command-line front end of the service.
pub struct Args;

/// Why the command line gives no configuration.
pub enum ArgError {
    /// `-h` was given: show the help screen and stop.
    HelpRequested,
    /// A key that the program does not know (given without its dashes).
    UnknownKey(String),
}

/// A configuration read from the command line. The values of `-tlr` (a float),
/// `-addr` and `-api` (socket addresses) are kept as text, in order, for the
/// program to parse; `settle_addresses` then applies the parsed addresses.
pub struct ParsedArgs {
    pub config: ServiceConfig,
    pub tlr_values: Vec<String>,
    pub addr_values: Vec<String>,
    pub api_values: Vec<String>,
}

/// A `ParsedArgs` with its text as character sequences.
pub struct ParsedArgsView {
    pub config: ServiceConfigView,
    pub tlr_values: Seq<Seq<char>>,
    pub addr_values: Seq<Seq<char>>,
    pub api_values: Seq<Seq<char>>,
}

impl View for ParsedArgs {
    type V = ParsedArgsView;

    open spec fn view(&self) -> ParsedArgsView {
        ParsedArgsView {
            config: self.config@,
            tlr_values: self.tlr_values.deep_view(),
            addr_values: self.addr_values.deep_view(),
            api_values: self.api_values.deep_view(),
        }
    }
}

/// The `(key, value)` pairs of a command line: an argument that begins with
/// `-` is a key (its leading dashes removed); the next argument is its value
/// unless that one begins with `-` too. Other arguments are skipped.
pub open spec fn arg_pairs(args: Seq<Seq<char>>) -> Seq<(Seq<char>, Option<Seq<char>>)>
    decreases args.len(),
{
    if args.len() == 0 {
        seq![]
    } else if starts_with_char(args[0], '-') {
        let key = trim_start_char(args[0], '-');
        if args.len() > 1 && !starts_with_char(args[1], '-') {
            seq![(key, Some(args[1]))] + arg_pairs(args.skip(2))
        } else {
            seq![(key, None)] + arg_pairs(args.skip(1))
        }
    } else {
        arg_pairs(args.skip(1))
    }
}

/// `v` clamped into `[lo, hi]`.
pub open spec fn clamp_int(v: int, lo: int, hi: int) -> int {
    if v < lo {
        lo
    } else if v > hi {
        hi
    } else {
        v
    }
}

/// A numeric setting after `-key val`: the parsed value clamped into
/// `[lo, hi]`, or `cur` when there is no value or it does not parse.
pub open spec fn numeric_setting(
    cur: int,
    val: Option<Seq<char>>,
    max: int,
    lo: int,
    hi: int,
) -> int {
    match val {
        Some(t) => match parse_unsigned(t, max) {
            Some(n) => clamp_int(n, lo, hi),
            None => cur,
        },
        None => cur,
    }
}

/// `s` with `val` appended where there is one.
pub open spec fn push_value(s: Seq<Seq<char>>, val: Option<Seq<char>>) -> Seq<Seq<char>> {
    match val {
        Some(v) => s.push(v),
        None => s,
    }
}

/// A list setting (`-ip`, `-domain`): the comma list of the value, unless
/// there is no value or the list is empty.
pub open spec fn list_setting(cur: Option<Seq<Seq<char>>>, val: Option<Seq<char>>) -> Option<
    Seq<Seq<char>>,
> {
    match val {
        Some(v) => if comma_list(v).len() > 0 {
            Some(comma_list(v))
        } else {
            cur
        },
        None => cur,
    }
}

/// The effect of one `(key, value)` pair; an unknown key is an error.
pub open spec fn apply_arg(p: ParsedArgsView, key: Seq<char>, val: Option<Seq<char>>) -> Result<
    ParsedArgsView,
    Seq<char>,
> {
    let c = p.config;
    if key == "addr"@ {
        Ok(ParsedArgsView { addr_values: push_value(p.addr_values, val), ..p })
    } else if key == "colo"@ {
        Ok(
            ParsedArgsView {
                config: ServiceConfigView {
                    colo: match val {
                        Some(v) => Some(comma_list(v)),
                        None => None,
                    },
                    ..c
                },
                ..p
            },
        )
    } else if key == "dl"@ {
        Ok(
            ParsedArgsView {
                config: ServiceConfigView {
                    delay_limit: numeric_setting(
                        c.delay_limit as int,
                        val,
                        u64::MAX as int,
                        1,
                        2000,
                    ) as u64,
                    ..c
                },
                ..p
            },
        )
    } else if key == "tlr"@ {
        Ok(ParsedArgsView { tlr_values: push_value(p.tlr_values, val), ..p })
    } else if key == "http"@ {
        Ok(ParsedArgsView { config: ServiceConfigView { http: or_keep(val, c.http), ..c }, ..p })
    } else if key == "ips"@ {
        Ok(
            ParsedArgsView {
                config: ServiceConfigView {
                    ips: numeric_setting(c.ips as int, val, usize::MAX as int, 1, 128) as usize,
                    ..c
                },
                ..p
            },
        )
    } else if key == "n"@ {
        Ok(
            ParsedArgsView {
                config: ServiceConfigView {
                    threads: numeric_setting(
                        c.threads as int,
                        val,
                        usize::MAX as int,
                        1,
                        1024,
                    ) as usize,
                    ..c
                },
                ..p
            },
        )
    } else if key == "tp"@ {
        Ok(
            ParsedArgsView {
                config: ServiceConfigView {
                    tls_port: numeric_setting(
                        c.tls_port as int,
                        val,
                        u16::MAX as int,
                        1,
                        u16::MAX as int,
                    ) as u16,
                    ..c
                },
                ..p
            },
        )
    } else if key == "p"@ {
        Ok(
            ParsedArgsView {
                config: ServiceConfigView {
                    http_port: numeric_setting(
                        c.http_port as int,
                        val,
                        u16::MAX as int,
                        1,
                        u16::MAX as int,
                    ) as u16,
                    ..c
                },
                ..p
            },
        )
    } else if key == "f"@ {
        Ok(
            ParsedArgsView {
                config: ServiceConfigView { ip_file: or_keep(val, c.ip_file), ..c },
                ..p
            },
        )
    } else if key == "s"@ {
        Ok(
            ParsedArgsView {
                config: ServiceConfigView {
                    max_sticky_slots: numeric_setting(
                        c.max_sticky_slots as int,
                        val,
                        usize::MAX as int,
                        1,
                        32,
                    ) as usize,
                    ..c
                },
                ..p
            },
        )
    } else if key == "ip"@ {
        Ok(
            ParsedArgsView {
                config: ServiceConfigView { custom_ips: list_setting(c.custom_ips, val), ..c },
                ..p
            },
        )
    } else if key == "domain"@ {
        Ok(
            ParsedArgsView {
                config: ServiceConfigView { domains: list_setting(c.domains, val), ..c },
                ..p
            },
        )
    } else if key == "api"@ {
        Ok(ParsedArgsView { api_values: push_value(p.api_values, val), ..p })
    } else {
        Err(key)
    }
}

/// The state before any argument: the default configuration.
pub open spec fn initial_parsed() -> ParsedArgsView {
    ParsedArgsView {
        config: default_config(),
        tlr_values: seq![],
        addr_values: seq![],
        api_values: seq![],
    }
}

/// The pairs applied in order from the defaults; the first unknown key stops it.
pub open spec fn fold_args(pairs: Seq<(Seq<char>, Option<Seq<char>>)>) -> Result<
    ParsedArgsView,
    Seq<char>,
>
    decreases pairs.len(),
{
    if pairs.len() == 0 {
        Ok(initial_parsed())
    } else {
        match fold_args(pairs.drop_last()) {
            Ok(p) => apply_arg(p, pairs.last().0, pairs.last().1),
            Err(k) => Err(k),
        }
    }
}

/// What a list of arguments (without the program name) configures.
pub open spec fn parse_outcome(args: Seq<Seq<char>>) -> Result<ParsedArgsView, Seq<char>> {
    fold_args(arg_pairs(args))
}

/// The arguments after the program name.
pub open spec fn after_program_name(args: Seq<Seq<char>>) -> Seq<Seq<char>> {
    if args.len() == 0 {
        args
    } else {
        args.skip(1)
    }
}

/// The last address that parsed, if any.
pub open spec fn last_some(s: Seq<Option<SockAddr>>) -> Option<SockAddr>
    decreases s.len(),
{
    if s.len() == 0 {
        None
    } else {
        match s.last() {
            Some(a) => Some(a),
            None => last_some(s.drop_last()),
        }
    }
}

/// The value of a numeric setting after `-key val`, as `numeric_setting` says.
fn numeric_value(cur: u64, val: &Option<String>, max: u64, lo: u64, hi: u64) -> (r: u64)
    requires
        lo <= hi <= max,
    ensures
        r as int == numeric_setting(cur as int, val.deep_view(), max as int, lo as int, hi as int),
{
    match val {
        Some(t) => {
            let v = chars_of(t.as_str());
            match parse_decimal(&v, max) {
                Some(n) => if n < lo {
                    lo
                } else if n > hi {
                    hi
                } else {
                    n
                },
                None => cur,
            }
        },
        None => cur,
    }
}

/// Appends the value, if there is one.
fn push_value_exec(list: &mut Vec<String>, val: &Option<String>)
    ensures
        final(list).deep_view() == push_value(old(list).deep_view(), val.deep_view()),
{
    if let Some(v) = val {
        let ghost before = list.deep_view();
        list.push(v.clone());
        assert(list.deep_view() =~= before.push(v@));
    }
}

/// The list setting after `-ip val` or `-domain val`, as `list_setting` says.
fn list_value(cur: &Option<Vec<String>>, val: &Option<String>) -> (r: Option<Vec<String>>)
    ensures
        r.deep_view() == list_setting(cur.deep_view(), val.deep_view()),
{
    match val {
        Some(v) => {
            let items = split_comma_list(v.as_str());
            if items.len() > 0 {
                Some(items)
            } else {
                copy_opt_strings(cur)
            }
        },
        None => copy_opt_strings(cur),
    }
}

impl Args {
    /// Splits arguments into `(key, value)` pairs as `arg_pairs` says.
    pub fn parse_args_to_vec(args: &Vec<String>) -> (out: Vec<(String, Option<String>)>)
        ensures
            out.deep_view() == arg_pairs(args.deep_view()),
    {
        let ghost a = args.deep_view();
        let mut out: Vec<(String, Option<String>)> = Vec::new();
        let mut i: usize = 0;
        assert(a.skip(0) =~= a);
        assert(out.deep_view() + arg_pairs(a.skip(0)) =~= arg_pairs(a));
        while i < args.len()
            invariant
                i <= args.len(),
                a == args.deep_view(),
                out.deep_view() + arg_pairs(a.skip(i as int)) == arg_pairs(a),
            decreases args.len() - i,
        {
            let ghost rest = a.skip(i as int);
            assert(rest[0] == args[i as int]@);
            let cur = chars_of(args[i].as_str());
            if starts_with(&cur, '-') {
                let key_chars = trim_start_matches_char(&cur, '-');
                let key = string_from_chars(key_chars.as_slice());
                let has_value = if i + 1 < args.len() {
                    let next = chars_of(args[i + 1].as_str());
                    assert(rest[1] == args[i + 1]@);
                    !starts_with(&next, '-')
                } else {
                    false
                };
                let ghost before = out.deep_view();
                if has_value {
                    let value = args[i + 1].clone();
                    out.push((key, Some(value)));
                    assert(rest.skip(2) =~= a.skip(i + 2));
                    assert(out.deep_view() =~= before + seq![(key_chars@, Some(args[i + 1]@))]);
                    assert(out.deep_view() + arg_pairs(a.skip(i + 2)) =~= before + arg_pairs(
                        rest,
                    ));
                    i = i + 2;
                } else {
                    out.push((key, None));
                    assert(rest.skip(1) =~= a.skip(i + 1));
                    assert(out.deep_view() =~= before + seq![(key_chars@, None::<Seq<char>>)]);
                    assert(out.deep_view() + arg_pairs(a.skip(i + 1)) =~= before + arg_pairs(
                        rest,
                    ));
                    i = i + 1;
                }
            } else {
                assert(rest.skip(1) =~= a.skip(i + 1));
                i = i + 1;
            }
        }
        assert(a.skip(i as int) =~= Seq::<Seq<char>>::empty());
        assert(out.deep_view() + arg_pairs(a.skip(i as int)) =~= out.deep_view());
        out
    }

    /// Applies one `(key, value)` pair as `apply_arg` says; `false` for an
    /// unknown key, leaving `p` as it was.
    fn apply_pair(p: &mut ParsedArgs, key: &Vec<char>, val: &Option<String>) -> (known: bool)
        ensures
            known ==> apply_arg(old(p)@, key@, val.deep_view()) == Ok::<
                ParsedArgsView,
                Seq<char>,
            >(final(p)@),
            !known ==> apply_arg(old(p)@, key@, val.deep_view()) == Err::<
                ParsedArgsView,
                Seq<char>,
            >(key@),
    {
        if chars_eq_str(key, "addr") {
            push_value_exec(&mut p.addr_values, val);
        } else if chars_eq_str(key, "colo") {
            p.config.colo =
            match val {
                Some(v) => Some(split_comma_list(v.as_str())),
                None => None,
            };
        } else if chars_eq_str(key, "dl") {
            p.config.delay_limit = numeric_value(p.config.delay_limit, val, u64::MAX, 1, 2000);
        } else if chars_eq_str(key, "tlr") {
            push_value_exec(&mut p.tlr_values, val);
        } else if chars_eq_str(key, "http") {
            if let Some(v) = val {
                p.config.http = v.clone();
            }
        } else if chars_eq_str(key, "ips") {
            p.config.ips = numeric_value(p.config.ips as u64, val, usize::MAX as u64, 1, 128) as usize;
        } else if chars_eq_str(key, "n") {
            p.config.threads = numeric_value(
                p.config.threads as u64,
                val,
                usize::MAX as u64,
                1,
                1024,
            ) as usize;
        } else if chars_eq_str(key, "tp") {
            p.config.tls_port = numeric_value(
                p.config.tls_port as u64,
                val,
                u16::MAX as u64,
                1,
                u16::MAX as u64,
            ) as u16;
        } else if chars_eq_str(key, "p") {
            p.config.http_port = numeric_value(
                p.config.http_port as u64,
                val,
                u16::MAX as u64,
                1,
                u16::MAX as u64,
            ) as u16;
        } else if chars_eq_str(key, "f") {
            if let Some(v) = val {
                p.config.ip_file = v.clone();
            }
        } else if chars_eq_str(key, "s") {
            p.config.max_sticky_slots = numeric_value(
                p.config.max_sticky_slots as u64,
                val,
                usize::MAX as u64,
                1,
                32,
            ) as usize;
        } else if chars_eq_str(key, "ip") {
            p.config.custom_ips = list_value(&p.config.custom_ips, val);
        } else if chars_eq_str(key, "domain") {
            p.config.domains = list_value(&p.config.domains, val);
        } else if chars_eq_str(key, "api") {
            push_value_exec(&mut p.api_values, val);
        } else {
            return false;
        }
        true
    }

    /// Builds the configuration from arguments (the program name left out),
    /// as `parse_outcome` says: the defaults, changed by each pair in turn;
    /// the first unknown key is an error.
    pub fn parse_from_iter(args: &Vec<String>) -> (r: Result<ParsedArgs, ArgError>)
        ensures
            match r {
                Ok(p) => parse_outcome(args.deep_view()) == Ok::<ParsedArgsView, Seq<char>>(p@),
                Err(ArgError::UnknownKey(k)) => parse_outcome(args.deep_view()) == Err::<
                    ParsedArgsView,
                    Seq<char>,
                >(k@),
                Err(ArgError::HelpRequested) => false,
            },
    {
        let pairs = Self::parse_args_to_vec(args);
        let mut p = ParsedArgs {
            config: ServiceConfig::default(),
            tlr_values: Vec::new(),
            addr_values: Vec::new(),
            api_values: Vec::new(),
        };
        assert(p.tlr_values.deep_view() =~= Seq::<Seq<char>>::empty());
        assert(p.addr_values.deep_view() =~= Seq::<Seq<char>>::empty());
        assert(p.api_values.deep_view() =~= Seq::<Seq<char>>::empty());
        let ghost ps = pairs.deep_view();
        let mut i: usize = 0;
        assert(ps.take(0) =~= Seq::<(Seq<char>, Option<Seq<char>>)>::empty());
        while i < pairs.len()
            invariant
                i <= pairs.len(),
                ps == pairs.deep_view(),
                ps == arg_pairs(args.deep_view()),
                fold_args(ps.take(i as int)) == Ok::<ParsedArgsView, Seq<char>>(p@),
            decreases pairs.len() - i,
        {
            assert(ps.take(i + 1).drop_last() =~= ps.take(i as int));
            assert(ps.take(i + 1).last() == ps[i as int]);
            let key = chars_of(pairs[i].0.as_str());
            if !Self::apply_pair(&mut p, &key, &pairs[i].1) {
                proof {
                    lemma_fold_err_sticks(ps, i as int + 1, key@);
                }
                return Err(ArgError::UnknownKey(string_from_chars(key.as_slice())));
            }
            i = i + 1;
        }
        assert(ps.take(pairs.len() as int) =~= ps);
        Ok(p)
    }

    /// The configuration that the program's command line asks for (`args[0]`
    /// is the program name): `None` when nothing follows the program name,
    /// `HelpRequested` when any argument is `-h`, else `parse_from_iter` of
    /// the rest.
    pub fn parse_to_config(args: &Vec<String>) -> (r: Option<Result<ParsedArgs, ArgError>>)
        ensures
            args.len() == 1 <==> r is None,
            match r {
                None => true,
                Some(Err(ArgError::HelpRequested)) => args.deep_view().contains("-h"@),
                Some(Err(ArgError::UnknownKey(k))) => !args.deep_view().contains("-h"@)
                    && parse_outcome(after_program_name(args.deep_view())) == Err::<ParsedArgsView, Seq<char>>(
                    k@,
                ),
                Some(Ok(p)) => !args.deep_view().contains("-h"@) && parse_outcome(
                    after_program_name(args.deep_view()),
                ) == Ok::<ParsedArgsView, Seq<char>>(p@),
            },
    {
        if args.len() == 1 {
            return None;
        }
        let mut i: usize = 0;
        while i < args.len()
            invariant
                i <= args.len(),
                args.len() != 1,
                forall|k: int| 0 <= k < i ==> args.deep_view()[k] != "-h"@,
            decreases args.len() - i,
        {
            let a = chars_of(args[i].as_str());
            if chars_eq_str(&a, "-h") {
                assert(args.deep_view()[i as int] == "-h"@);
                return Some(Err(ArgError::HelpRequested));
            }
            i = i + 1;
        }
        let mut rest: Vec<String> = Vec::new();
        if args.len() == 0 {
            assert(rest.deep_view() =~= args.deep_view());
            return Some(Self::parse_from_iter(&rest));
        }
        let mut j: usize = 1;
        assert(rest.deep_view() =~= args.deep_view().subrange(1, 1));
        while j < args.len()
            invariant
                1 <= j <= args.len(),
                rest.deep_view() =~= args.deep_view().subrange(1, j as int),
            decreases args.len() - j,
        {
            let ghost before = rest.deep_view();
            rest.push(args[j].clone());
            assert(rest.deep_view() =~= before.push(args[j as int]@));
            j = j + 1;
        }
        assert(rest.deep_view() =~= after_program_name(args.deep_view()));
        Some(Self::parse_from_iter(&rest))
    }

    /// The configuration that a typed line asks for: `None` for a blank line,
    /// else `parse_from_iter` of its white-space separated words.
    pub fn parse_line_to_config(line: &str) -> (r: Option<Result<ParsedArgs, ArgError>>)
        ensures
            words(line@).len() == 0 <==> r is None,
            match r {
                None => true,
                Some(Err(ArgError::HelpRequested)) => false,
                Some(Err(ArgError::UnknownKey(k))) => parse_outcome(words(line@)) == Err::<
                    ParsedArgsView,
                    Seq<char>,
                >(k@),
                Some(Ok(p)) => parse_outcome(words(line@)) == Ok::<ParsedArgsView, Seq<char>>(p@),
            },
    {
        let v = chars_of(line);
        let pieces = split_whitespace_chars(&v);
        let args = strings_from_pieces(&pieces);
        if args.len() == 0 {
            return None;
        }
        Some(Self::parse_from_iter(&args))
    }
}

/// Once the pairs up to `k` fail with `key`, the whole list fails with it.
proof fn lemma_fold_err_sticks(
    ps: Seq<(Seq<char>, Option<Seq<char>>)>,
    k: int,
    key: Seq<char>,
)
    requires
        0 <= k <= ps.len(),
        fold_args(ps.take(k)) == Err::<ParsedArgsView, Seq<char>>(key),
    ensures
        fold_args(ps) == Err::<ParsedArgsView, Seq<char>>(key),
    decreases ps.len() - k,
{
    if k < ps.len() {
        assert(ps.take(k + 1).drop_last() =~= ps.take(k));
        lemma_fold_err_sticks(ps, k + 1, key);
    } else {
        assert(ps.take(k) =~= ps);
    }
}

impl ParsedArgs {
    /// Applies the parsed forms of the `-addr` and `-api` values, given in the
    /// same order as `addr_values` and `api_values` (`None` for a value that is
    /// not a socket address): the last address that parsed wins; where none
    /// did, the setting stays as it was.
    pub fn settle_addresses(&mut self, addrs: &Vec<Option<SockAddr>>, apis: &Vec<Option<SockAddr>>)
        ensures
            final(self).tlr_values.deep_view() == old(self).tlr_values.deep_view(),
            final(self).addr_values.deep_view() == old(self).addr_values.deep_view(),
            final(self).api_values.deep_view() == old(self).api_values.deep_view(),
            final(self).config@ == (ServiceConfigView {
                addr: match last_some(addrs@) {
                    Some(a) => a,
                    None => old(self).config@.addr,
                },
                api_addr: match last_some(apis@) {
                    Some(a) => Some(a),
                    None => old(self).config@.api_addr,
                },
                ..old(self).config@
            }),
    {
        if let Some(a) = last_address(addrs) {
            self.config.addr = a;
        }
        if let Some(a) = last_address(apis) {
            self.config.api_addr = Some(a);
        }
    }
}

/// The last address in the list that is present.
pub fn last_address(s: &Vec<Option<SockAddr>>) -> (r: Option<SockAddr>)
    ensures
        r == last_some(s@),
{
    let mut j: usize = s.len();
    assert(s@.take(s.len() as int) =~= s@);
    while j > 0
        invariant
            j <= s.len(),
            last_some(s@) == last_some(s@.take(j as int)),
        decreases j,
    {
        assert(s@.take(j as int).drop_last() =~= s@.take(j - 1));
        assert(s@.take(j as int).last() == s@[j - 1]);
        if let Some(a) = s[j - 1] {
            return Some(a);
        }
        j = j - 1;
    }
    assert(s@.take(0) =~= Seq::<Option<SockAddr>>::empty());
    None
}

/// Whether `c` has Unicode's `Alphabetic` property, as `char::is_alphabetic` says.
pub uninterp spec fn char_is_alphabetic(c: char) -> bool;

/// Whether `c` is an ASCII letter, `a`-`z` or `A`-`Z`.
pub open spec fn is_ascii_letter(c: char) -> bool {
    let u = c as u32;
    (65 <= u && u <= 90) || (97 <= u && u <= 122)
}

/// Whether `c` is alphabetic: among ASCII characters exactly the letters,
/// beyond ASCII as Unicode's `Alphabetic` property says.
pub open spec fn alphabetic(c: char) -> bool {
    if (c as u32) < 128 {
        is_ascii_letter(c)
    } else {
        char_is_alphabetic(c)
    }
}

/// std's `char::is_alphabetic`. The contract names its result; of ASCII
/// characters it says that exactly the letters `a`-`z` and `A`-`Z` are
/// alphabetic (std's own ASCII rule); the Unicode table beyond ASCII is not
/// restated.
#[verifier::external_body]
pub fn is_alphabetic(c: char) -> (b: bool)
    ensures
        b == char_is_alphabetic(c),
        (c as u32) < 128 ==> (b <==> is_ascii_letter(c)),
{
    c.is_alphabetic()
}

/// The escape character that starts a terminal color sequence.
pub open spec fn escape_char() -> char {
    '\u{1b}'
}

/// The width counted so far and whether a color sequence is open: a sequence
/// runs from the escape character to the next `m` or letter and counts
/// nothing; other ASCII characters count 1, the rest 2.
pub open spec fn width_state(s: Seq<char>) -> (int, bool)
    decreases s.len(),
{
    if s.len() == 0 {
        (0, false)
    } else {
        let st = width_state(s.drop_last());
        let c = s.last();
        if c == escape_char() {
            (st.0, true)
        } else if st.1 {
            (st.0, !(c == 'm' || alphabetic(c)))
        } else {
            (st.0 + if (c as u32) < 128 {
                1int
            } else {
                2int
            }, false)
        }
    }
}

/// The columns `s` takes on a terminal, roughly: color sequences take none,
/// ASCII one, anything else two.
pub open spec fn display_width(s: Seq<char>) -> int {
    width_state(s).0
}

/// A width, with usize's ceiling.
pub open spec fn capped(w: int) -> int {
    if w <= usize::MAX {
        w
    } else {
        usize::MAX as int
    }
}

/// Widths are never negative.
pub proof fn lemma_width_nonneg(s: Seq<char>)
    ensures
        width_state(s).0 >= 0,
    decreases s.len(),
{
    if s.len() > 0 {
        lemma_width_nonneg(s.drop_last());
    }
}

/// The display width of characters, as `display_width` says.
pub fn display_width_chars(v: &Vec<char>) -> (w: usize)
    ensures
        w as int == capped(display_width(v@)),
{
    let mut width: usize = 0;
    let mut in_escape = false;
    let mut i: usize = 0;
    assert(v@.take(0) =~= Seq::<char>::empty());
    while i < v.len()
        invariant
            i <= v.len(),
            width as int == capped(width_state(v@.take(i as int)).0),
            in_escape == width_state(v@.take(i as int)).1,
        decreases v.len() - i,
    {
        assert(v@.take(i + 1).drop_last() =~= v@.take(i as int));
        assert(v@.take(i + 1).last() == v@[i as int]);
        proof {
            lemma_width_nonneg(v@.take(i as int));
        }
        let c = v[i];
        if c == '\u{1b}' {
            in_escape = true;
        } else if in_escape {
            if c == 'm' || is_alphabetic(c) {
                in_escape = false;
            }
        } else {
            let step: usize = if (c as u32) < 128 {
                1
            } else {
                2
            };
            width = width.saturating_add(step);
        }
        i = i + 1;
    }
    assert(v@.take(v.len() as int) =~= v@);
    width
}

/// The columns `s` takes on a terminal, as `display_width` says (at most
/// `usize::MAX`, which a string never reaches).
pub fn approximate_display_width(s: &str) -> (w: usize)
    ensures
        w as int == capped(display_width(s@)),
{
    let v = chars_of(s);
    display_width_chars(&v)
}

/// `n` spaces.
pub open spec fn spaces(n: int) -> Seq<char> {
    Seq::new(if n > 0 { n as nat } else { 0 }, |i: int| ' ')
}

/// The padding that brings a text of width `w` to `target` columns.
pub open spec fn padding(target: int, w: int) -> Seq<char> {
    spaces(target - w)
}

/// An option's name in green.
pub open spec fn colored_name(name: Seq<char>) -> Seq<char> {
    "\x1b[32m"@ + name + "\x1b[0m"@
}

/// An option's default, dimmed.
pub open spec fn colored_default(default: Seq<char>) -> Seq<char> {
    "\x1b[2m"@ + default + "\x1b[0m"@
}

/// One line of the help screen: the name in green padded to 11 columns, the
/// description padded to 45, the default dimmed and padded to 15.
pub open spec fn help_line(name: Seq<char>, desc: Seq<char>, default: Seq<char>) -> Seq<char> {
    let name_colored = colored_name(name);
    let default_colored = colored_default(default);
    " "@ + name_colored + padding(11, display_width(name_colored)) + desc + padding(
        45,
        display_width(desc),
    ) + default_colored + padding(15, display_width(default_colored)) + "\n"@
}

/// Appends characters.
fn append_chars(out: &mut Vec<char>, s: &Vec<char>)
    ensures
        final(out)@ == old(out)@ + s@,
{
    let mut i: usize = 0;
    while i < s.len()
        invariant
            i <= s.len(),
            out@ == old(out)@ + s@.take(i as int),
        decreases s.len() - i,
    {
        assert(s@.take(i + 1) =~= s@.take(i as int).push(s@[i as int]));
        out.push(s[i]);
        i = i + 1;
    }
    assert(s@.take(s.len() as int) =~= s@);
}

/// Appends the padding for a text of width `w` to reach `target` columns.
fn append_padding(out: &mut Vec<char>, target: usize, w: usize)
    ensures
        final(out)@ == old(out)@ + spaces(target - w),
{
    let n = target.saturating_sub(w);
    let mut i: usize = 0;
    while i < n
        invariant
            i <= n,
            n == if target >= w { target - w } else { 0 },
            out@ == old(out)@ + Seq::new(i as nat, |k: int| ' '),
        decreases n - i,
    {
        out.push(' ');
        i = i + 1;
        assert(out@ =~= old(out)@ + Seq::new(i as nat, |k: int| ' '));
    }
    assert(spaces(target - w) =~= Seq::new(n as nat, |k: int| ' '));
}

/// Padding against a capped width is the padding against the width itself.
proof fn lemma_padding_capped(target: int, w: int)
    requires
        0 <= target <= 45,
        w >= 0,
    ensures
        spaces(target - capped(w)) == padding(target, w),
{
}

/// The help screen line for one option, as `help_line` says.
pub fn format_help_line(name: &str, desc: &str, default: &str) -> (line: String)
    ensures
        line@ == help_line(name@, desc@, default@),
{
    let name_v = chars_of(name);
    let desc_v = chars_of(desc);
    let default_v = chars_of(default);
    let green = chars_of("\x1b[32m");
    let dim = chars_of("\x1b[2m");
    let reset = chars_of("\x1b[0m");
    let mut name_colored: Vec<char> = Vec::new();
    append_chars(&mut name_colored, &green);
    append_chars(&mut name_colored, &name_v);
    append_chars(&mut name_colored, &reset);
    let name_width = display_width_chars(&name_colored);
    let desc_width = display_width_chars(&desc_v);
    let mut default_colored: Vec<char> = Vec::new();
    append_chars(&mut default_colored, &dim);
    append_chars(&mut default_colored, &default_v);
    append_chars(&mut default_colored, &reset);
    let default_width = display_width_chars(&default_colored);
    proof {
        lemma_width_nonneg(name_colored@);
        lemma_width_nonneg(desc_v@);
        lemma_width_nonneg(default_colored@);
        lemma_padding_capped(11, display_width(name_colored@));
        lemma_padding_capped(45, display_width(desc_v@));
        lemma_padding_capped(15, display_width(default_colored@));
    }
    let mut out: Vec<char> = Vec::new();
    out.push(' ');
    append_chars(&mut out, &name_colored);
    append_padding(&mut out, 11, name_width);
    append_chars(&mut out, &desc_v);
    append_padding(&mut out, 45, desc_width);
    append_chars(&mut out, &default_colored);
    append_padding(&mut out, 15, default_width);
    out.push('\n');
    proof {
        reveal_strlit(" ");
        reveal_strlit("\n");
    }
    assert(out@ =~= help_line(name@, desc@, default@));
    string_from_chars(out.as_slice())
}

/// The options listed on the help screen: name, description, default.
pub open spec fn help_entries() -> Seq<(Seq<char>, Seq<char>, Seq<char>)> {
    seq![
        ("-addr"@, "本地监听的 IP 和端口"@, "127.6.6.6:1234"@),
        ("-api"@, "API 服务地址和端口，端口 0 自动分配"@, "127.0.0.1:0"@),
        ("-colo"@, "筛选一个或多个数据中心，例如 HKG,LAX"@, "未指定"@),
        ("-dl"@, "有效连接的平均延迟上限（毫秒）"@, "500"@),
        ("-tlr"@, "有效连接的平均丢包率上限"@, "0.1"@),
        ("-http"@, "测速地址"@, "http://cp.cloudflare.com/cdn-cgi/trace"@),
        ("-s"@, "最大负载槽数"@, "5"@),
        ("-ips"@, "目标负载数量"@, "10"@),
        ("-n"@, "延迟测速并发上限"@, "16"@),
        ("-tp"@, "TLS 流量使用的端口号"@, "443"@),
        ("-p"@, "HTTP 流量使用的端口号"@, "80"@),
        ("-f"@, "从文件读取 IP 或 CIDR"@, "ip.txt"@),
        ("-ip"@, "自定义 IP，逗号分隔"@, "未指定"@),
        ("-domain"@, "从域名解析 IP，逗号分隔"@, "未指定"@),
    ]
}

/// The help lines of `entries`, in order.
pub open spec fn help_lines(entries: Seq<(Seq<char>, Seq<char>, Seq<char>)>) -> Seq<char>
    decreases entries.len(),
{
    if entries.len() == 0 {
        seq![]
    } else {
        help_lines(entries.drop_last()) + help_line(
            entries.last().0,
            entries.last().1,
            entries.last().2,
        )
    }
}

/// The whole help screen: its title, a blank line, then one line per option.
pub open spec fn help_screen() -> Seq<char> {
    "\x1b[1;35m参数说明\x1b[0m\n\n"@ + help_lines(help_entries())
}

/// The help screen, as `help_screen` says.
pub fn help_text() -> (t: String)
    ensures
        t@ == help_screen(),
{
    let entries: Vec<(&str, &str, &str)> = vec![
        ("-addr", "本地监听的 IP 和端口", "127.6.6.6:1234"),
        ("-api", "API 服务地址和端口，端口 0 自动分配", "127.0.0.1:0"),
        ("-colo", "筛选一个或多个数据中心，例如 HKG,LAX", "未指定"),
        ("-dl", "有效连接的平均延迟上限（毫秒）", "500"),
        ("-tlr", "有效连接的平均丢包率上限", "0.1"),
        ("-http", "测速地址", "http://cp.cloudflare.com/cdn-cgi/trace"),
        ("-s", "最大负载槽数", "5"),
        ("-ips", "目标负载数量", "10"),
        ("-n", "延迟测速并发上限", "16"),
        ("-tp", "TLS 流量使用的端口号", "443"),
        ("-p", "HTTP 流量使用的端口号", "80"),
        ("-f", "从文件读取 IP 或 CIDR", "ip.txt"),
        ("-ip", "自定义 IP，逗号分隔", "未指定"),
        ("-domain", "从域名解析 IP，逗号分隔", "未指定"),
    ];
    assert(entries.deep_view() =~= help_entries());
    let mut out = chars_of("\x1b[1;35m参数说明\x1b[0m\n\n");
    let mut i: usize = 0;
    assert(entries.deep_view().take(0) =~= Seq::<(Seq<char>, Seq<char>, Seq<char>)>::empty());
    while i < entries.len()
        invariant
            i <= entries.len(),
            entries.deep_view() == help_entries(),
            out@ == "\x1b[1;35m参数说明\x1b[0m\n\n"@ + help_lines(entries.deep_view().take(i as int)),
        decreases entries.len() - i,
    {
        let (name, desc, default) = entries[i];
        let line = format_help_line(name, desc, default);
        let line_chars = chars_of(line.as_str());
        append_chars(&mut out, &line_chars);
        assert(entries.deep_view().take(i + 1).drop_last() =~= entries.deep_view().take(i as int));
        assert(entries.deep_view().take(i + 1).last() == entries.deep_view()[i as int]);
        i = i + 1;
    }
    assert(entries.deep_view().take(entries.len() as int) =~= entries.deep_view());
    string_from_chars(out.as_slice())
}

/// The numeric settings lie in the ranges the command line allows: delay
/// limit 1..=2000 ms, 1..=128 target IPs, 1..=1024 probe threads, 1..=32
/// sticky slots, and non-zero ports.
pub open spec fn settings_in_range(c: ServiceConfigView) -> bool {
    &&& 1 <= c.delay_limit <= 2000
    &&& 1 <= c.ips <= 128
    &&& 1 <= c.threads <= 1024
    &&& 1 <= c.max_sticky_slots <= 32
    &&& c.tls_port >= 1
    &&& c.http_port >= 1
}

/// A numeric setting stays in `[lo, hi]` when it was there before.
proof fn lemma_numeric_setting_in_range(cur: int, val: Option<Seq<char>>, max: int, lo: int, hi: int)
    requires
        lo <= cur <= hi,
        lo <= hi,
    ensures
        lo <= numeric_setting(cur, val, max, lo, hi) <= hi,
{
}

/// One pair keeps the settings in range.
proof fn lemma_apply_arg_in_range(p: ParsedArgsView, key: Seq<char>, val: Option<Seq<char>>)
    requires
        settings_in_range(p.config),
    ensures
        apply_arg(p, key, val) matches Ok(q) ==> settings_in_range(q.config),
{
    let c = p.config;
    lemma_numeric_setting_in_range(c.delay_limit as int, val, u64::MAX as int, 1, 2000);
    lemma_numeric_setting_in_range(c.ips as int, val, usize::MAX as int, 1, 128);
    lemma_numeric_setting_in_range(c.threads as int, val, usize::MAX as int, 1, 1024);
    lemma_numeric_setting_in_range(c.max_sticky_slots as int, val, usize::MAX as int, 1, 32);
    lemma_numeric_setting_in_range(c.tls_port as int, val, u16::MAX as int, 1, u16::MAX as int);
    lemma_numeric_setting_in_range(c.http_port as int, val, u16::MAX as int, 1, u16::MAX as int);
}

/// Folding pairs keeps the settings in range.
proof fn lemma_fold_in_range(pairs: Seq<(Seq<char>, Option<Seq<char>>)>)
    ensures
        fold_args(pairs) matches Ok(p) ==> settings_in_range(p.config),
    decreases pairs.len(),
{
    if pairs.len() > 0 {
        lemma_fold_in_range(pairs.drop_last());
        match fold_args(pairs.drop_last()) {
            Ok(p) => lemma_apply_arg_in_range(p, pairs.last().0, pairs.last().1),
            Err(_) => {},
        }
    }
}

/// Whatever the command line says, a configuration built from it has its
/// numeric settings in the allowed ranges (out-of-range values are clamped).
pub proof fn lemma_parsed_settings_in_range(args: Seq<Seq<char>>)
    ensures
        parse_outcome(args) matches Ok(p) ==> settings_in_range(p.config),
{
    lemma_fold_in_range(arg_pairs(args));
}

/// The value of a number of up to three digits.
proof fn lemma_short_decimal(s: Seq<char>)
    requires
        1 <= s.len() <= 3,
    ensures
        decimal_value(s) == if s.len() == 1 {
            digit_value(s[0])
        } else if s.len() == 2 {
            digit_value(s[0]) * 10 + digit_value(s[1])
        } else {
            digit_value(s[0]) * 100 + digit_value(s[1]) * 10 + digit_value(s[2])
        },
{
    let a = s.take(1);
    assert(a.drop_last() =~= Seq::<char>::empty());
    assert(decimal_value(Seq::<char>::empty()) == 0);
    assert(a.last() == s[0]);
    assert(decimal_value(a) == digit_value(s[0]));
    if s.len() == 1 {
        assert(a =~= s);
    } else {
        let b = s.take(2);
        assert(b.drop_last() =~= a);
        assert(b.last() == s[1]);
        assert(decimal_value(b) == digit_value(s[0]) * 10 + digit_value(s[1]));
        if s.len() == 2 {
            assert(b =~= s);
        } else {
            assert(s.drop_last() =~= b);
            assert(s.last() == s[2]);
        }
    }
}

/// A short run of digits is parsed to its value when that fits.
proof fn lemma_default_parses(s: Seq<char>, max: int)
    requires
        1 <= s.len() <= 3,
        all_digits(s),
        decimal_value(s) <= max,
    ensures
        parse_unsigned(s, max) == Some(decimal_value(s)),
{
    assert(!is_digit('+'));
    assert(unsigned_digits(s) == s);
}

/// The defaults that the help screen shows are the ones the configuration
/// starts with.
pub proof fn lemma_help_shows_defaults()
    ensures
        help_entries()[3].0 == "-dl"@ && parse_unsigned(help_entries()[3].2, u64::MAX as int) == Some(
            default_config().delay_limit as int,
        ),
        help_entries()[6].0 == "-s"@ && parse_unsigned(help_entries()[6].2, usize::MAX as int) == Some(
            default_config().max_sticky_slots as int,
        ),
        help_entries()[7].0 == "-ips"@ && parse_unsigned(help_entries()[7].2, usize::MAX as int)
            == Some(default_config().ips as int),
        help_entries()[8].0 == "-n"@ && parse_unsigned(help_entries()[8].2, usize::MAX as int) == Some(
            default_config().threads as int,
        ),
        help_entries()[9].0 == "-tp"@ && parse_unsigned(help_entries()[9].2, u16::MAX as int) == Some(
            default_config().tls_port as int,
        ),
        help_entries()[10].0 == "-p"@ && parse_unsigned(help_entries()[10].2, u16::MAX as int) == Some(
            default_config().http_port as int,
        ),
        help_entries()[5].0 == "-http"@ && help_entries()[5].2 == default_config().http,
        help_entries()[11].0 == "-f"@ && help_entries()[11].2 == default_config().ip_file,
{
    reveal_strlit("500");
    reveal_strlit("5");
    reveal_strlit("10");
    reveal_strlit("16");
    reveal_strlit("443");
    reveal_strlit("80");
    lemma_short_decimal("500"@);
    lemma_short_decimal("5"@);
    lemma_short_decimal("10"@);
    lemma_short_decimal("16"@);
    lemma_short_decimal("443"@);
    lemma_short_decimal("80"@);
    lemma_default_parses("500"@, u64::MAX as int);
    lemma_default_parses("5"@, usize::MAX as int);
    lemma_default_parses("10"@, usize::MAX as int);
    lemma_default_parses("16"@, usize::MAX as int);
    lemma_default_parses("443"@, u16::MAX as int);
    lemma_default_parses("80"@, u16::MAX as int);
}

/// The width of a text with no color sequence: 1 per ASCII character, 2 per other.
pub open spec fn plain_width(s: Seq<char>) -> int
    decreases s.len(),
{
    if s.len() == 0 {
        0
    } else {
        plain_width(s.drop_last()) + if (s.last() as u32) < 128 {
            1int
        } else {
            2int
        }
    }
}

/// Without an escape character no color sequence opens: each ASCII
/// character counts 1 and any other 2, so an ASCII text is as wide as it is long.
pub proof fn lemma_width_without_escapes(s: Seq<char>)
    requires
        !s.contains(escape_char()),
    ensures
        width_state(s) == (plain_width(s), false),
        (forall|i: int| 0 <= i < s.len() ==> (#[trigger] s[i] as u32) < 128) ==> display_width(s)
            == s.len(),
    decreases s.len(),
{
    if s.len() > 0 {
        assert(!s.drop_last().contains(escape_char())) by {
            if s.drop_last().contains(escape_char()) {
                let k = choose|k: int| 0 <= k < s.drop_last().len() && s.drop_last()[k] == escape_char();
                assert(s[k] == escape_char());
            }
        }
        assert(s[s.len() - 1] == s.last());
        lemma_width_without_escapes(s.drop_last());
        if forall|i: int| 0 <= i < s.len() ==> (#[trigger] s[i] as u32) < 128 {
            assert forall|i: int| 0 <= i < s.drop_last().len() implies (#[trigger] s.drop_last()[i]
                as u32) < 128 by {
                assert(s.drop_last()[i] == s[i]);
            }
        }
    }
}

/// From a state outside any color sequence, a text counts the same width
/// wherever it stands.
pub proof fn lemma_width_concat(a: Seq<char>, b: Seq<char>)
    requires
        !width_state(a).1,
    ensures
        width_state(a + b) == (width_state(a).0 + width_state(b).0, width_state(b).1),
    decreases b.len(),
{
    if b.len() == 0 {
        assert(a + b =~= a);
    } else {
        assert((a + b).drop_last() =~= a + b.drop_last());
        assert((a + b).last() == b.last());
        lemma_width_concat(a, b.drop_last());
    }
}

/// A text ending in `m` leaves no color sequence open.
proof fn lemma_ends_closed(s: Seq<char>)
    requires
        s.len() > 0,
        s.last() == 'm',
    ensures
        !width_state(s).1,
{
}

/// `n` spaces are `n` columns wide and open nothing.
proof fn lemma_spaces_width(n: int)
    ensures
        width_state(spaces(n)) == (if n > 0 {
            n
        } else {
            0
        }, false),
    decreases if n > 0 {
        n
    } else {
        0
    },
{
    if n > 0 {
        assert(spaces(n).drop_last() =~= spaces(n - 1));
        lemma_spaces_width(n - 1);
    } else {
        assert(spaces(n) =~= Seq::<char>::empty());
    }
}

/// One step of the width count: a character after a state.
proof fn lemma_width_step(s: Seq<char>, c: char)
    ensures
        width_state(s.push(c)) == (if c == escape_char() {
            (width_state(s).0, true)
        } else if width_state(s).1 {
            (width_state(s).0, !(c == 'm' || alphabetic(c)))
        } else {
            (width_state(s).0 + if (c as u32) < 128 {
                1int
            } else {
                2int
            }, false)
        }),
{
    assert(s.push(c).drop_last() =~= s);
}

/// The color sequences of the help screen take no columns and leave no
/// sequence open.
pub proof fn lemma_color_codes()
    ensures
        width_state("\x1b[32m"@) == (0int, false),
        width_state("\x1b[2m"@) == (0int, false),
        width_state("\x1b[0m"@) == (0int, false),
{
    reveal_strlit("\x1b[32m");
    reveal_strlit("\x1b[2m");
    reveal_strlit("\x1b[0m");
    let e: Seq<char> = Seq::empty();
    assert(width_state(e) == (0int, false));
    let s1 = e.push('\u{1b}');
    lemma_width_step(e, '\u{1b}');
    let s2 = s1.push('[');
    lemma_width_step(s1, '[');
    let a3 = s2.push('3');
    lemma_width_step(s2, '3');
    let a4 = a3.push('2');
    lemma_width_step(a3, '2');
    lemma_width_step(a4, 'm');
    assert("\x1b[32m"@ =~= a4.push('m'));
    let b3 = s2.push('2');
    lemma_width_step(s2, '2');
    lemma_width_step(b3, 'm');
    assert("\x1b[2m"@ =~= b3.push('m'));
    let c3 = s2.push('0');
    lemma_width_step(s2, '0');
    lemma_width_step(c3, 'm');
    assert("\x1b[0m"@ =~= c3.push('m'));
}

/// Coloring a text with no escape character adds no width.
pub proof fn lemma_colored_widths(t: Seq<char>)
    requires
        !t.contains(escape_char()),
    ensures
        display_width(colored_name(t)) == display_width(t),
        display_width(colored_default(t)) == display_width(t),
{
    lemma_color_codes();
    lemma_width_without_escapes(t);
    lemma_width_concat("\x1b[32m"@, t);
    lemma_width_concat("\x1b[32m"@ + t, "\x1b[0m"@);
    lemma_width_concat("\x1b[2m"@, t);
    lemma_width_concat("\x1b[2m"@ + t, "\x1b[0m"@);
}

/// For a name and default without escape characters, a help line pads the
/// name to 11 columns, the description to 45 and the default to 15, each by
/// its own width.
pub proof fn lemma_help_line_plain(name: Seq<char>, desc: Seq<char>, default: Seq<char>)
    requires
        !name.contains(escape_char()),
        !default.contains(escape_char()),
    ensures
        help_line(name, desc, default) == " "@ + colored_name(name) + padding(
            11,
            display_width(name),
        ) + desc + padding(45, display_width(desc)) + colored_default(default) + padding(
            15,
            display_width(default),
        ) + "\n"@,
{
    lemma_colored_widths(name);
    lemma_colored_widths(default);
}

/// The columns of the help screen line up: for texts without escape
/// characters, a help line is one column for the leading space, the name
/// padded to at least 11 columns, the description to at least 45, the
/// default to at least 15, and one for the line end; so when every field
/// fits its column, every line is 73 columns wide.
pub proof fn lemma_help_columns(name: Seq<char>, desc: Seq<char>, default: Seq<char>)
    requires
        !name.contains(escape_char()),
        !desc.contains(escape_char()),
        !default.contains(escape_char()),
    ensures
        display_width(help_line(name, desc, default)) == 2 + max_int(display_width(name), 11)
            + max_int(display_width(desc), 45) + max_int(display_width(default), 15),
        display_width(name) <= 11 && display_width(desc) <= 45 && display_width(default) <= 15
            ==> display_width(help_line(name, desc, default)) == 73,
{
    lemma_colored_widths(name);
    lemma_colored_widths(default);
    lemma_colored_help_columns(name, desc, default);
}

/// The width of a help line in terms of the colored name and default.
proof fn lemma_colored_help_columns(name: Seq<char>, desc: Seq<char>, default: Seq<char>)
    requires
        !desc.contains(escape_char()),
    ensures
        display_width(help_line(name, desc, default)) == 2 + max_int(
            display_width(colored_name(name)),
            11,
        ) + max_int(display_width(desc), 45) + max_int(display_width(colored_default(default)), 15),
{
    reveal_strlit(" ");
    reveal_strlit("\n");
    reveal_strlit("\x1b[0m");
    let nc = colored_name(name);
    let dc = colored_default(default);
    let wn = display_width(nc);
    let wd = display_width(desc);
    let wf = display_width(dc);
    lemma_width_nonneg(nc);
    lemma_width_nonneg(desc);
    lemma_width_nonneg(dc);
    let p1 = padding(11, wn);
    let p2 = padding(45, wd);
    let p3 = padding(15, wf);
    lemma_spaces_width(11 - wn);
    lemma_spaces_width(45 - wd);
    lemma_spaces_width(15 - wf);
    lemma_width_without_escapes(desc);
    let s0 = " "@;
    assert(width_state(s0.drop_last()) == (0int, false)) by {
        assert(s0.drop_last() =~= Seq::<char>::empty());
    }
    assert(width_state(s0) == (1int, false));
    let s1 = s0 + nc;
    lemma_width_concat(s0, nc);
    assert(s1.last() == 'm');
    lemma_ends_closed(s1);
    let s2 = s1 + p1;
    lemma_width_concat(s1, p1);
    let s3 = s2 + desc;
    lemma_width_concat(s2, desc);
    let s4 = s3 + p2;
    lemma_width_concat(s3, p2);
    let s5 = s4 + dc;
    lemma_width_concat(s4, dc);
    assert(s5.last() == 'm');
    lemma_ends_closed(s5);
    let s6 = s5 + p3;
    lemma_width_concat(s5, p3);
    let nl = "\n"@;
    assert(width_state(nl.drop_last()) == (0int, false)) by {
        assert(nl.drop_last() =~= Seq::<char>::empty());
    }
    assert(width_state(nl) == (1int, false));
    lemma_width_concat(s6, nl);
    assert(help_line(name, desc, default) == s6 + nl);
}

/// The larger of two integers.
pub open spec fn max_int(a: int, b: int) -> int {
    if a >= b {
        a
    } else {
        b
    }
}

/// Arguments followed by arguments that begin with a key split into the
/// pairs of each part.
proof fn lemma_arg_pairs_concat(a: Seq<Seq<char>>, b: Seq<Seq<char>>)
    requires
        b.len() > 0,
        starts_with_char(b[0], '-'),
    ensures
        arg_pairs(a + b) == arg_pairs(a) + arg_pairs(b),
    decreases a.len(),
{
    let t = a + b;
    if a.len() == 0 {
        assert(t =~= b);
        assert(arg_pairs(a) =~= Seq::<(Seq<char>, Option<Seq<char>>)>::empty());
        assert(arg_pairs(a) + arg_pairs(b) =~= arg_pairs(b));
    } else {
        assert(t[0] == a[0]);
        if starts_with_char(a[0], '-') {
            let key = trim_start_char(a[0], '-');
            if a.len() > 1 && !starts_with_char(a[1], '-') {
                assert(t[1] == a[1]);
                assert(t.skip(2) =~= a.skip(2) + b);
                lemma_arg_pairs_concat(a.skip(2), b);
                assert(arg_pairs(t) =~= arg_pairs(a) + arg_pairs(b));
            } else {
                if a.len() > 1 {
                    assert(t[1] == a[1]);
                } else {
                    assert(t[1] == b[0]);
                }
                assert(t.skip(1) =~= a.skip(1) + b);
                lemma_arg_pairs_concat(a.skip(1), b);
                assert(arg_pairs(t) =~= arg_pairs(a) + arg_pairs(b));
            }
        } else {
            assert(t.skip(1) =~= a.skip(1) + b);
            lemma_arg_pairs_concat(a.skip(1), b);
        }
    }
}

/// Appending a flag with its value to a command line applies exactly that
/// flag to what the command line configured before: the later occurrence
/// wins, and (by `apply_arg`) it changes only its own setting.
pub proof fn lemma_appended_flag(args: Seq<Seq<char>>, key: Seq<char>, v: Seq<char>)
    requires
        parse_outcome(args) is Ok,
        !starts_with_char(key, '-'),
        !starts_with_char(v, '-'),
    ensures
        parse_outcome(args + seq![seq!['-'] + key, v]) == apply_arg(
            parse_outcome(args)->Ok_0,
            key,
            Some(v),
        ),
{
    let flag = seq!['-'] + key;
    let b = seq![flag, v];
    assert(flag[0] == '-');
    assert(b[0] == flag);
    lemma_arg_pairs_concat(args, b);
    assert(flag.drop_first() =~= key);
    assert(trim_start_char(flag, '-') == trim_start_char(key, '-'));
    assert(trim_start_char(key, '-') == key);
    assert(b.skip(2) =~= Seq::<Seq<char>>::empty());
    assert(arg_pairs(b.skip(2)) =~= Seq::<(Seq<char>, Option<Seq<char>>)>::empty());
    assert(b[1] == v);
    assert(arg_pairs(b) =~= seq![(key, Some(v))]);
    let ps = arg_pairs(args);
    assert((ps + seq![(key, Some(v))]).drop_last() =~= ps);
}

/// `-ips 7` at the end of a command line sets the target count to 7 and
/// changes nothing else.
pub proof fn lemma_appended_ips(args: Seq<Seq<char>>)
    requires
        parse_outcome(args) is Ok,
    ensures
        parse_outcome(args + seq!["-ips"@, "7"@]) == Ok::<ParsedArgsView, Seq<char>>(
            ParsedArgsView {
                config: ServiceConfigView { ips: 7, ..parse_outcome(args)->Ok_0.config },
                ..parse_outcome(args)->Ok_0
            },
        ),
{
    reveal_strlit("-ips");
    reveal_strlit("ips");
    reveal_strlit("7");
    assert("-ips"@ =~= seq!['-'] + "ips"@);
    lemma_appended_flag(args, "ips"@, "7"@);
    lemma_short_decimal("7"@);
    lemma_default_parses("7"@, usize::MAX as int);
    reveal_strlit("addr");
    reveal_strlit("colo");
    reveal_strlit("dl");
    reveal_strlit("tlr");
    reveal_strlit("http");
    assert("ips"@.len() != "addr"@.len());
    assert("ips"@ != "addr"@);
    assert("ips"@.len() != "colo"@.len());
    assert("ips"@ != "colo"@);
    assert("ips"@.len() != "dl"@.len());
    assert("ips"@ != "dl"@);
    assert("ips"@[0] != "tlr"@[0]);
    assert("ips"@ != "tlr"@);
    assert("ips"@ != "http"@);
}

/// A text of decimal digits parses to its value when that fits in `max`, and
/// not at all when it does not.
proof fn lemma_digits_parse(v: Seq<char>, max: int)
    requires
        v.len() > 0,
        all_digits(v),
    ensures
        parse_unsigned(v, max) == (if decimal_value(v) <= max {
            Some(decimal_value(v))
        } else {
            None::<int>
        }),
{
    assert(is_digit(v[0]));
    assert(!is_digit('+'));
    assert(unsigned_digits(v) == v);
}

/// `p` with its configuration replaced by `c`.
pub open spec fn with_config(p: ParsedArgsView, c: ServiceConfigView) -> ParsedArgsView {
    ParsedArgsView { config: c, ..p }
}

/// A numeric flag with a decimal value, at the end of a command line that
/// parses, sets its own setting and nothing else: the value clamped into the
/// setting's range (delay limit 1..=2000 ms, target IPs 1..=128, probe
/// threads 1..=1024, sticky slots 1..=32, ports 1..=65535), or, when the
/// value is too large for the setting's type, the setting as it was.
pub proof fn lemma_appended_numbers(args: Seq<Seq<char>>, v: Seq<char>)
    requires
        parse_outcome(args) is Ok,
        v.len() > 0,
        all_digits(v),
    ensures
        parse_outcome(args + seq!["-dl"@, v]) == Ok::<ParsedArgsView, Seq<char>>(
            with_config(
                parse_outcome(args)->Ok_0,
                ServiceConfigView {
                    delay_limit: (if decimal_value(v) <= u64::MAX {
                        clamp_int(decimal_value(v), 1, 2000)
                    } else {
                        parse_outcome(args)->Ok_0.config.delay_limit as int
                    }) as u64,
                    ..parse_outcome(args)->Ok_0.config
                },
            ),
        ),
        parse_outcome(args + seq!["-ips"@, v]) == Ok::<ParsedArgsView, Seq<char>>(
            with_config(
                parse_outcome(args)->Ok_0,
                ServiceConfigView {
                    ips: (if decimal_value(v) <= usize::MAX {
                        clamp_int(decimal_value(v), 1, 128)
                    } else {
                        parse_outcome(args)->Ok_0.config.ips as int
                    }) as usize,
                    ..parse_outcome(args)->Ok_0.config
                },
            ),
        ),
        parse_outcome(args + seq!["-n"@, v]) == Ok::<ParsedArgsView, Seq<char>>(
            with_config(
                parse_outcome(args)->Ok_0,
                ServiceConfigView {
                    threads: (if decimal_value(v) <= usize::MAX {
                        clamp_int(decimal_value(v), 1, 1024)
                    } else {
                        parse_outcome(args)->Ok_0.config.threads as int
                    }) as usize,
                    ..parse_outcome(args)->Ok_0.config
                },
            ),
        ),
        parse_outcome(args + seq!["-s"@, v]) == Ok::<ParsedArgsView, Seq<char>>(
            with_config(
                parse_outcome(args)->Ok_0,
                ServiceConfigView {
                    max_sticky_slots: (if decimal_value(v) <= usize::MAX {
                        clamp_int(decimal_value(v), 1, 32)
                    } else {
                        parse_outcome(args)->Ok_0.config.max_sticky_slots as int
                    }) as usize,
                    ..parse_outcome(args)->Ok_0.config
                },
            ),
        ),
        parse_outcome(args + seq!["-tp"@, v]) == Ok::<ParsedArgsView, Seq<char>>(
            with_config(
                parse_outcome(args)->Ok_0,
                ServiceConfigView {
                    tls_port: (if decimal_value(v) <= u16::MAX {
                        clamp_int(decimal_value(v), 1, 65535)
                    } else {
                        parse_outcome(args)->Ok_0.config.tls_port as int
                    }) as u16,
                    ..parse_outcome(args)->Ok_0.config
                },
            ),
        ),
        parse_outcome(args + seq!["-p"@, v]) == Ok::<ParsedArgsView, Seq<char>>(
            with_config(
                parse_outcome(args)->Ok_0,
                ServiceConfigView {
                    http_port: (if decimal_value(v) <= u16::MAX {
                        clamp_int(decimal_value(v), 1, 65535)
                    } else {
                        parse_outcome(args)->Ok_0.config.http_port as int
                    }) as u16,
                    ..parse_outcome(args)->Ok_0.config
                },
            ),
        ),
{
    assert(!starts_with_char(v, '-')) by {
        assert(is_digit(v[0]));
    }
    lemma_digits_parse(v, u64::MAX as int);
    lemma_digits_parse(v, usize::MAX as int);
    lemma_digits_parse(v, u16::MAX as int);
    reveal_strlit("-dl");
    reveal_strlit("-ips");
    reveal_strlit("-n");
    reveal_strlit("-s");
    reveal_strlit("-tp");
    reveal_strlit("-p");
    reveal_strlit("addr");
    reveal_strlit("colo");
    reveal_strlit("dl");
    reveal_strlit("tlr");
    reveal_strlit("http");
    reveal_strlit("ips");
    reveal_strlit("n");
    reveal_strlit("tp");
    reveal_strlit("p");
    reveal_strlit("f");
    reveal_strlit("s");
    assert("-dl"@ =~= seq!['-'] + "dl"@);
    assert("-ips"@ =~= seq!['-'] + "ips"@);
    assert("-n"@ =~= seq!['-'] + "n"@);
    assert("-s"@ =~= seq!['-'] + "s"@);
    assert("-tp"@ =~= seq!['-'] + "tp"@);
    assert("-p"@ =~= seq!['-'] + "p"@);
    lemma_appended_flag(args, "dl"@, v);
    lemma_appended_flag(args, "ips"@, v);
    lemma_appended_flag(args, "n"@, v);
    lemma_appended_flag(args, "s"@, v);
    lemma_appended_flag(args, "tp"@, v);
    lemma_appended_flag(args, "p"@, v);
    assert("dl"@ != "addr"@ && "dl"@ != "colo"@);
    assert("ips"@ != "addr"@ && "ips"@ != "colo"@ && "ips"@ != "dl"@ && "ips"@ != "http"@);
    assert("ips"@[0] != "tlr"@[0]);
    assert("n"@ != "addr"@ && "n"@ != "colo"@ && "n"@ != "dl"@ && "n"@ != "tlr"@ && "n"@
        != "http"@ && "n"@ != "ips"@);
    assert("s"@ != "addr"@ && "s"@ != "colo"@ && "s"@ != "dl"@ && "s"@ != "tlr"@ && "s"@
        != "http"@ && "s"@ != "ips"@ && "s"@ != "tp"@);
    assert("s"@[0] != "n"@[0] && "s"@[0] != "p"@[0] && "s"@[0] != "f"@[0]);
    assert("tp"@ != "addr"@ && "tp"@ != "colo"@ && "tp"@ != "tlr"@ && "tp"@ != "http"@ && "tp"@
        != "ips"@ && "tp"@ != "n"@);
    assert("tp"@[0] != "dl"@[0]);
    assert("p"@ != "addr"@ && "p"@ != "colo"@ && "p"@ != "dl"@ && "p"@ != "tlr"@ && "p"@
        != "http"@ && "p"@ != "ips"@ && "p"@ != "tp"@);
    assert("p"@[0] != "n"@[0]);
}

/// A text flag with a value, at the end of a command line that parses, does
/// its own thing and nothing else: `-http` and `-f` set the probe URL and the
/// IP file to the value; `-colo` sets the colo filter to the value's comma
/// list; `-ip` and `-domain` set the custom IPs and the domains to the
/// value's comma list when that list is not empty; `-addr`, `-api` and
/// `-tlr` add the value to their texts, in order.
pub proof fn lemma_appended_texts(args: Seq<Seq<char>>, v: Seq<char>)
    requires
        parse_outcome(args) is Ok,
        !starts_with_char(v, '-'),
    ensures
        parse_outcome(args + seq!["-http"@, v]) == Ok::<ParsedArgsView, Seq<char>>(
            with_config(
                parse_outcome(args)->Ok_0,
                ServiceConfigView { http: v, ..parse_outcome(args)->Ok_0.config },
            ),
        ),
        parse_outcome(args + seq!["-f"@, v]) == Ok::<ParsedArgsView, Seq<char>>(
            with_config(
                parse_outcome(args)->Ok_0,
                ServiceConfigView { ip_file: v, ..parse_outcome(args)->Ok_0.config },
            ),
        ),
        parse_outcome(args + seq!["-colo"@, v]) == Ok::<ParsedArgsView, Seq<char>>(
            with_config(
                parse_outcome(args)->Ok_0,
                ServiceConfigView { colo: Some(comma_list(v)), ..parse_outcome(args)->Ok_0.config },
            ),
        ),
        parse_outcome(args + seq!["-ip"@, v]) == Ok::<ParsedArgsView, Seq<char>>(
            with_config(
                parse_outcome(args)->Ok_0,
                ServiceConfigView {
                    custom_ips: if comma_list(v).len() > 0 {
                        Some(comma_list(v))
                    } else {
                        parse_outcome(args)->Ok_0.config.custom_ips
                    },
                    ..parse_outcome(args)->Ok_0.config
                },
            ),
        ),
        parse_outcome(args + seq!["-domain"@, v]) == Ok::<ParsedArgsView, Seq<char>>(
            with_config(
                parse_outcome(args)->Ok_0,
                ServiceConfigView {
                    domains: if comma_list(v).len() > 0 {
                        Some(comma_list(v))
                    } else {
                        parse_outcome(args)->Ok_0.config.domains
                    },
                    ..parse_outcome(args)->Ok_0.config
                },
            ),
        ),
        parse_outcome(args + seq!["-addr"@, v]) == Ok::<ParsedArgsView, Seq<char>>(
            ParsedArgsView {
                addr_values: parse_outcome(args)->Ok_0.addr_values.push(v),
                ..parse_outcome(args)->Ok_0
            },
        ),
        parse_outcome(args + seq!["-api"@, v]) == Ok::<ParsedArgsView, Seq<char>>(
            ParsedArgsView {
                api_values: parse_outcome(args)->Ok_0.api_values.push(v),
                ..parse_outcome(args)->Ok_0
            },
        ),
        parse_outcome(args + seq!["-tlr"@, v]) == Ok::<ParsedArgsView, Seq<char>>(
            ParsedArgsView {
                tlr_values: parse_outcome(args)->Ok_0.tlr_values.push(v),
                ..parse_outcome(args)->Ok_0
            },
        ),
{
    reveal_strlit("-http");
    reveal_strlit("-f");
    reveal_strlit("-colo");
    reveal_strlit("-ip");
    reveal_strlit("-domain");
    reveal_strlit("-addr");
    reveal_strlit("-api");
    reveal_strlit("-tlr");
    reveal_strlit("addr");
    reveal_strlit("colo");
    reveal_strlit("dl");
    reveal_strlit("tlr");
    reveal_strlit("http");
    reveal_strlit("ips");
    reveal_strlit("n");
    reveal_strlit("tp");
    reveal_strlit("p");
    reveal_strlit("f");
    reveal_strlit("s");
    reveal_strlit("ip");
    reveal_strlit("domain");
    reveal_strlit("api");
    assert("-http"@ =~= seq!['-'] + "http"@);
    assert("-f"@ =~= seq!['-'] + "f"@);
    assert("-colo"@ =~= seq!['-'] + "colo"@);
    assert("-ip"@ =~= seq!['-'] + "ip"@);
    assert("-domain"@ =~= seq!['-'] + "domain"@);
    assert("-addr"@ =~= seq!['-'] + "addr"@);
    assert("-api"@ =~= seq!['-'] + "api"@);
    assert("-tlr"@ =~= seq!['-'] + "tlr"@);
    lemma_appended_flag(args, "http"@, v);
    lemma_appended_flag(args, "f"@, v);
    lemma_appended_flag(args, "colo"@, v);
    lemma_appended_flag(args, "ip"@, v);
    lemma_appended_flag(args, "domain"@, v);
    lemma_appended_flag(args, "addr"@, v);
    lemma_appended_flag(args, "api"@, v);
    lemma_appended_flag(args, "tlr"@, v);
    assert("colo"@[0] != "addr"@[0]);
    assert("tlr"@ != "addr"@ && "tlr"@ != "colo"@ && "tlr"@ != "dl"@);
    assert("http"@[0] != "addr"@[0] && "http"@[0] != "colo"@[0]);
    assert("http"@ != "dl"@ && "http"@ != "tlr"@);
    assert("f"@ != "addr"@ && "f"@ != "colo"@ && "f"@ != "dl"@ && "f"@ != "tlr"@ && "f"@
        != "http"@ && "f"@ != "ips"@ && "f"@ != "tp"@);
    assert("f"@[0] != "n"@[0] && "f"@[0] != "p"@[0]);
    assert("ip"@ != "addr"@ && "ip"@ != "colo"@ && "ip"@ != "tlr"@ && "ip"@ != "http"@ && "ip"@
        != "ips"@ && "ip"@ != "n"@ && "ip"@ != "p"@ && "ip"@ != "f"@ && "ip"@ != "s"@);
    assert("ip"@[0] != "dl"@[0] && "ip"@[0] != "tp"@[0]);
    assert("domain"@ != "addr"@ && "domain"@ != "colo"@ && "domain"@ != "dl"@ && "domain"@
        != "tlr"@ && "domain"@ != "http"@ && "domain"@ != "ips"@ && "domain"@ != "n"@ && "domain"@
        != "tp"@ && "domain"@ != "p"@ && "domain"@ != "f"@ && "domain"@ != "s"@ && "domain"@
        != "ip"@);
    assert("api"@ != "addr"@ && "api"@ != "colo"@ && "api"@ != "dl"@ && "api"@ != "http"@
        && "api"@ != "n"@ && "api"@ != "tp"@ && "api"@ != "p"@ && "api"@ != "f"@ && "api"@
        != "s"@ && "api"@ != "ip"@ && "api"@ != "domain"@);
    assert("api"@[0] != "tlr"@[0] && "api"@[0] != "ips"@[0]);
}

/// A flag that the program does not know, at the end of a command line that
/// parses, makes the whole command line fail with that key.
pub proof fn lemma_appended_unknown(args: Seq<Seq<char>>, key: Seq<char>, v: Seq<char>)
    requires
        parse_outcome(args) is Ok,
        !starts_with_char(key, '-'),
        !starts_with_char(v, '-'),
        key != "addr"@ && key != "colo"@ && key != "dl"@ && key != "tlr"@ && key != "http"@ && key
            != "ips"@ && key != "n"@ && key != "tp"@ && key != "p"@ && key != "f"@ && key != "s"@
            && key != "ip"@ && key != "domain"@ && key != "api"@,
    ensures
        parse_outcome(args + seq![seq!['-'] + key, v]) == Err::<ParsedArgsView, Seq<char>>(key),
{
    lemma_appended_flag(args, key, v);
}

/// Once a command line has failed on an unknown key, nothing that follows
/// changes that: the first unknown key is the error.
pub proof fn lemma_unknown_key_sticks(args: Seq<Seq<char>>, more: Seq<Seq<char>>)
    requires
        parse_outcome(args) is Err,
        more.len() > 0,
        starts_with_char(more[0], '-'),
    ensures
        parse_outcome(args + more) == parse_outcome(args),
{
    lemma_arg_pairs_concat(args, more);
    let a = arg_pairs(args);
    let b = arg_pairs(more);
    lemma_fold_prefix_err(a, b);
}

/// Folding a list of pairs whose beginning already fails fails the same way.
proof fn lemma_fold_prefix_err(
    a: Seq<(Seq<char>, Option<Seq<char>>)>,
    b: Seq<(Seq<char>, Option<Seq<char>>)>,
)
    requires
        fold_args(a) is Err,
    ensures
        fold_args(a + b) == fold_args(a),
    decreases b.len(),
{
    if b.len() == 0 {
        assert(a + b =~= a);
    } else {
        assert((a + b).drop_last() =~= a + b.drop_last());
        lemma_fold_prefix_err(a, b.drop_last());
    }
}

/// The positions, from `from` on and in order, of the arguments that begin with `-`.
pub open spec fn key_positions(toks: Seq<Seq<char>>, from: int) -> Seq<int>
    decreases toks.len() - from,
{
    if from < 0 || from >= toks.len() {
        seq![]
    } else if starts_with_char(toks[from], '-') {
        seq![from] + key_positions(toks, from + 1)
    } else {
        key_positions(toks, from + 1)
    }
}

/// The pair that the key at position `k` makes: its name without dashes, and
/// the next argument as its value unless there is none or it begins with `-`.
pub open spec fn pair_at(toks: Seq<Seq<char>>, k: int) -> (Seq<char>, Option<Seq<char>>) {
    (
        trim_start_char(toks[k], '-'),
        if k + 1 < toks.len() && !starts_with_char(toks[k + 1], '-') {
            Some(toks[k + 1])
        } else {
            None
        },
    )
}

/// The pairs from `from` on are the pairs at the key positions from `from` on.
proof fn lemma_pairs_from(toks: Seq<Seq<char>>, from: int)
    requires
        0 <= from <= toks.len(),
    ensures
        arg_pairs(toks.skip(from)) == key_positions(toks, from).map_values(
            |k: int| pair_at(toks, k),
        ),
    decreases toks.len() - from,
{
    let f = |k: int| pair_at(toks, k);
    let t = toks.skip(from);
    if from == toks.len() {
        assert(t =~= Seq::<Seq<char>>::empty());
        assert(key_positions(toks, from).map_values(f) =~= Seq::<(Seq<char>, Option<Seq<char>>)>::empty());
    } else {
        assert(t[0] == toks[from]);
        if starts_with_char(toks[from], '-') {
            if from + 1 < toks.len() && !starts_with_char(toks[from + 1], '-') {
                assert(t[1] == toks[from + 1]);
                assert(t.skip(2) =~= toks.skip(from + 2));
                lemma_pairs_from(toks, from + 2);
                assert(key_positions(toks, from + 1) == key_positions(toks, from + 2));
            } else {
                if from + 1 < toks.len() {
                    assert(t[1] == toks[from + 1]);
                }
                assert(t.skip(1) =~= toks.skip(from + 1));
                lemma_pairs_from(toks, from + 1);
            }
            let rest = key_positions(toks, from + 1);
            assert((seq![from] + rest).map_values(f) =~= seq![f(from)] + rest.map_values(f));
            assert(arg_pairs(t) =~= key_positions(toks, from).map_values(f));
        } else {
            assert(t.skip(1) =~= toks.skip(from + 1));
            lemma_pairs_from(toks, from + 1);
        }
    }
}

/// The key positions from `from` on are increasing, each holds a key, and
/// every key from `from` on is among them.
proof fn lemma_key_positions(toks: Seq<Seq<char>>, from: int)
    requires
        0 <= from <= toks.len(),
    ensures
        forall|j: int|
            0 <= j < key_positions(toks, from).len() ==> from <= #[trigger] key_positions(toks, from)[j]
                < toks.len() && starts_with_char(toks[key_positions(toks, from)[j]], '-'),
        forall|j: int, l: int|
            0 <= j < l < key_positions(toks, from).len() ==> #[trigger] key_positions(toks, from)[j]
                < #[trigger] key_positions(toks, from)[l],
        forall|i: int|
            from <= i < toks.len() && starts_with_char(#[trigger] toks[i], '-') ==> key_positions(
                toks,
                from,
            ).contains(i),
    decreases toks.len() - from,
{
    if from < toks.len() {
        lemma_key_positions(toks, from + 1);
        let rest = key_positions(toks, from + 1);
        let kp = key_positions(toks, from);
        if starts_with_char(toks[from], '-') {
            assert forall|j: int| 0 <= j < kp.len() implies from <= #[trigger] kp[j] < toks.len()
                && starts_with_char(toks[kp[j]], '-') by {
                if j > 0 {
                    assert(kp[j] == rest[j - 1]);
                }
            }
            assert forall|j: int, l: int| 0 <= j < l < kp.len() implies #[trigger] kp[j]
                < #[trigger] kp[l] by {
                assert(kp[l] == rest[l - 1]);
                if j > 0 {
                    assert(kp[j] == rest[j - 1]);
                }
            }
            assert forall|i: int| from <= i < toks.len() && starts_with_char(
                #[trigger] toks[i],
                '-',
            ) implies kp.contains(i) by {
                if i == from {
                    assert(kp[0] == from);
                } else {
                    let k = choose|k: int| 0 <= k < rest.len() && rest[k] == i;
                    assert(kp[k + 1] == i);
                }
            }
        } else {
            assert forall|i: int| from <= i < toks.len() && starts_with_char(
                #[trigger] toks[i],
                '-',
            ) implies kp.contains(i) by {
                assert(i != from);
            }
        }
    }
}

/// The pairs of a command line, by position: one for each argument that
/// begins with `-`, in order, made as `pair_at` says.
pub proof fn lemma_pairs_by_position(toks: Seq<Seq<char>>)
    ensures
        arg_pairs(toks) == key_positions(toks, 0).map_values(|k: int| pair_at(toks, k)),
        forall|j: int|
            0 <= j < key_positions(toks, 0).len() ==> 0 <= #[trigger] key_positions(toks, 0)[j]
                < toks.len() && starts_with_char(toks[key_positions(toks, 0)[j]], '-'),
        forall|j: int, l: int|
            0 <= j < l < key_positions(toks, 0).len() ==> #[trigger] key_positions(toks, 0)[j]
                < #[trigger] key_positions(toks, 0)[l],
        forall|i: int|
            0 <= i < toks.len() && starts_with_char(#[trigger] toks[i], '-') ==> key_positions(
                toks,
                0,
            ).contains(i),
{
    assert(toks.skip(0) =~= toks);
    lemma_pairs_from(toks, 0);
    lemma_key_positions(toks, 0);
}

} // verus!
