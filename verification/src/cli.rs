//! The command line: which transport to serve on, and the lists of extra
//! accepted `Host` values.

use vstd::prelude::*;

use crate::json::strings_view;
use crate::text::{
    chars_equal, chars_of, lemma_trim_idempotent, lemma_trim_is_a_slice, string_of, trim, trim_bounds, trim_end,
    trim_start,
};

verus! {

/// Address used by `--http` when neither an argument nor `LAT_HTTP_ADDR` is
/// given. Loopback only, so nothing is exposed to the network by accident.
pub const DEFAULT_HTTP_ADDR: &'static str = "127.0.0.1:8000";

pub const USAGE: &'static str = "\
lat — Language-as-Tool MCP server

Usage:
  lat                     Serve over stdio (default; host launches the binary)
  lat --http [ADDR]       Serve over streamable HTTP at ADDR/mcp
  lat --help, -h          Show this help
  lat --version, -V       Show the version

Environment:
  LAT_DB_PATH             Database file (default: platform data directory)
  LAT_HTTP_ADDR           Address for --http (default: 127.0.0.1:8000)
  LAT_HTTP_ALLOWED_HOSTS  Additional accepted Host header values for HTTP,
                          comma-separated. Loopback is always accepted.
  RUST_LOG                Log filter (default: info)";

/// Where the HTTP transport is to listen.
#[derive(Debug)]
pub enum Address {
    /// The address given on the command line, still to be resolved.
    Given(String),
    /// No address given: `LAT_HTTP_ADDR`, or else [`DEFAULT_HTTP_ADDR`].
    Default,
}

/// How the server talks to its host.
#[derive(Debug)]
pub enum Transport {
    Stdio,
    Http(Address),
}

/// What the invocation asked for.
#[derive(Debug)]
pub enum Command {
    Serve(Transport),
    Help,
    Version,
}

/// A command line that was read: the command, and the first argument that
/// followed it, which makes the invocation an error once the address has
/// been resolved.
#[derive(Debug)]
pub struct ParsedArgs {
    pub command: Command,
    pub unexpected: Option<String>,
}

/// A command line that names no known command.
#[derive(Debug)]
pub struct UnknownArgument {
    pub argument: String,
}

/// An address as characters.
pub enum AddressView {
    Given(Seq<char>),
    Default,
}

/// A command as characters.
pub enum CommandView {
    Stdio,
    Http(AddressView),
    Help,
    Version,
}

impl View for Command {
    type V = CommandView;

    open spec fn view(&self) -> CommandView {
        match self {
            Command::Serve(Transport::Stdio) => CommandView::Stdio,
            Command::Serve(Transport::Http(Address::Given(a))) => CommandView::Http(
                AddressView::Given(a@),
            ),
            Command::Serve(Transport::Http(Address::Default)) => CommandView::Http(
                AddressView::Default,
            ),
            Command::Help => CommandView::Help,
            Command::Version => CommandView::Version,
        }
    }
}

/// The argument at position `k`, if there is one.
pub open spec fn arg_at(args: Seq<Seq<char>>, k: int) -> Option<Seq<char>> {
    if 0 <= k < args.len() {
        Some(args[k])
    } else {
        None
    }
}

/// Whether an argument is a flag rather than a value.
pub open spec fn is_flag(arg: Seq<char>) -> bool {
    arg.len() > 0 && arg[0] == '-'
}

/// Whether `s` begins with `prefix`.
pub open spec fn has_prefix(s: Seq<char>, prefix: Seq<char>) -> bool {
    prefix.len() <= s.len() && s.take(prefix.len() as int) == prefix
}

/// How a command line is read: the command and the first argument left over,
/// or the unknown first argument.
pub open spec fn parse_spec(args: Seq<Seq<char>>) -> Result<
    (CommandView, Option<Seq<char>>),
    Seq<char>,
> {
    if args.len() == 0 {
        Ok((CommandView::Stdio, None))
    } else {
        let a = args[0];
        if a == "--help"@ || a == "-h"@ {
            Ok((CommandView::Help, arg_at(args, 1)))
        } else if a == "--version"@ || a == "-V"@ {
            Ok((CommandView::Version, arg_at(args, 1)))
        } else if a == "--http"@ {
            if args.len() > 1 && !is_flag(args[1]) {
                Ok((CommandView::Http(AddressView::Given(args[1])), arg_at(args, 2)))
            } else {
                Ok((CommandView::Http(AddressView::Default), arg_at(args, 1)))
            }
        } else if has_prefix(a, "--http="@) {
            Ok((CommandView::Http(AddressView::Given(a.skip(("--http="@).len() as int))), arg_at(args, 1)))
        } else {
            Err(a)
        }
    }
}

/// The view of an optional string.
pub open spec fn opt_string_view(o: Option<String>) -> Option<Seq<char>> {
    match o {
        Some(s) => Some(s@),
        None => None,
    }
}

fn is_literal(arg: &Vec<char>, lit: &str) -> (same: bool)
    ensures
        same == (arg@ == lit@),
{
    chars_equal(arg, &chars_of(lit))
}

fn starts_with(s: &Vec<char>, prefix: &Vec<char>) -> (r: bool)
    ensures
        r == has_prefix(s@, prefix@),
{
    if prefix.len() > s.len() {
        return false;
    }
    let mut i: usize = 0;
    while i < prefix.len()
        invariant
            i <= prefix.len() <= s.len(),
            forall|k: int| 0 <= k < i ==> s@[k] == prefix@[k],
        decreases prefix.len() - i,
    {
        if s[i] != prefix[i] {
            assert(s@.take(prefix.len() as int)[i as int] != prefix@[i as int]);
            return false;
        }
        i = i + 1;
    }
    assert(s@.take(prefix.len() as int) =~= prefix@);
    true
}

fn arg_after(args: &Vec<String>, k: usize) -> (a: Option<String>)
    ensures
        opt_string_view(a) == arg_at(strings_view(args@), k as int),
{
    if k < args.len() {
        Some(args[k].clone())
    } else {
        None
    }
}

/// Reads the command line (without the program name). Accepts `--http`,
/// `--http ADDR` and `--http=ADDR`; a value after `--http` is taken only when
/// it is not a flag.
pub fn parse_args(args: &Vec<String>) -> (res: Result<ParsedArgs, UnknownArgument>)
    ensures
        parse_spec(strings_view(args@)) == (match res {
            Ok(p) => Ok((p.command@, opt_string_view(p.unexpected))),
            Err(e) => Err(e.argument@),
        }),
{
    let ghost sv = strings_view(args@);
    if args.len() == 0 {
        return Ok(ParsedArgs { command: Command::Serve(Transport::Stdio), unexpected: None });
    }
    let first = chars_of(args[0].as_str());
    assert(sv[0] == first@);
    if is_literal(&first, "--help") || is_literal(&first, "-h") {
        return Ok(ParsedArgs { command: Command::Help, unexpected: arg_after(args, 1) });
    }
    if is_literal(&first, "--version") || is_literal(&first, "-V") {
        return Ok(ParsedArgs { command: Command::Version, unexpected: arg_after(args, 1) });
    }
    if is_literal(&first, "--http") {
        if args.len() > 1 {
            let next = chars_of(args[1].as_str());
            assert(sv[1] == next@);
            if !(next.len() > 0 && next[0] == '-') {
                return Ok(
                    ParsedArgs {
                        command: Command::Serve(Transport::Http(Address::Given(args[1].clone()))),
                        unexpected: arg_after(args, 2),
                    },
                );
            }
        }
        return Ok(
            ParsedArgs {
                command: Command::Serve(Transport::Http(Address::Default)),
                unexpected: arg_after(args, 1),
            },
        );
    }
    let prefix = chars_of("--http=");
    if starts_with(&first, &prefix) {
        let value = string_of(&first, prefix.len(), first.len());
        assert(first@.subrange(prefix@.len() as int, first@.len() as int) =~= first@.skip(
            prefix@.len() as int,
        ));
        return Ok(
            ParsedArgs {
                command: Command::Serve(Transport::Http(Address::Given(value))),
                unexpected: arg_after(args, 1),
            },
        );
    }
    Err(UnknownArgument { argument: args[0].clone() })
}

/// `--http ADDR` and `--http=ADDR` ask for the same thing, whatever follows,
/// when `ADDR` is not a flag: serving over HTTP at `ADDR`.
pub proof fn the_two_http_forms_agree(addr: Seq<char>, rest: Seq<Seq<char>>)
    requires
        !is_flag(addr),
    ensures
        parse_spec(seq!["--http"@, addr] + rest) == parse_spec(seq!["--http="@ + addr] + rest),
        parse_spec(seq!["--http"@, addr] + rest) == Ok::<(CommandView, Option<Seq<char>>), Seq<char>>(
            (CommandView::Http(AddressView::Given(addr)), arg_at(rest, 0)),
        ),
{
    reveal_strlit("--http");
    reveal_strlit("--http=");
    reveal_strlit("--help");
    reveal_strlit("-h");
    reveal_strlit("--version");
    reveal_strlit("-V");
    let spaced = seq!["--http"@, addr] + rest;
    let joined = seq!["--http="@ + addr] + rest;
    let flag = "--http="@ + addr;
    assert(flag.take(7) =~= "--http="@);
    assert(flag.skip(7) =~= addr);
    assert(flag != "--help"@);
    assert(flag != "-h"@);
    assert(flag != "-V"@);
    assert(flag != "--http"@);
    assert(flag[2] == 'h' && "--version"@[2] == 'v');
    assert(flag != "--version"@);
    assert("--http"@[3] == 't' && "--help"@[3] == 'e');
    assert("--http"@ != "--help"@ && "--http"@ != "-h"@);
    assert("--http"@ != "--version"@ && "--http"@ != "-V"@);
    assert(spaced.len() > 1 && !is_flag(spaced[1]));
    assert(has_prefix(flag, "--http="@));
    assert(("--http="@).len() == 7);
    assert(parse_spec(spaced) == Ok::<(CommandView, Option<Seq<char>>), Seq<char>>(
        (CommandView::Http(AddressView::Given(addr)), arg_at(rest, 0)),
    ));
    assert(parse_spec(joined) == Ok::<(CommandView, Option<Seq<char>>), Seq<char>>(
        (CommandView::Http(AddressView::Given(addr)), arg_at(rest, 0)),
    ));
}

/// The part of an address that is resolved: the text without surrounding
/// whitespace; `None` when nothing is left.
pub fn normalize_address(raw: &str) -> (addr: Option<String>)
    ensures
        match addr {
            Some(a) => trim(raw@).len() > 0 && a@ == trim(raw@),
            None => trim(raw@).len() == 0,
        },
{
    let v = chars_of(raw);
    let (a, b) = trim_bounds(&v, 0, v.len());
    assert(v@.subrange(0, v@.len() as int) =~= raw@);
    if a == b {
        None
    } else {
        Some(string_of(&v, a, b))
    }
}

/// The pieces of `s` between commas, as `str::split(',')` gives them.
pub open spec fn split_commas(s: Seq<char>) -> Seq<Seq<char>>
    decreases s.len(),
{
    if s.len() == 0 {
        seq![Seq::empty()]
    } else {
        let init = split_commas(s.drop_last());
        if s.last() == ',' {
            init.push(Seq::empty())
        } else {
            init.update(init.len() - 1, init.last().push(s.last()))
        }
    }
}

/// The trimmed pieces that are not blank, in order.
pub open spec fn non_blank(pieces: Seq<Seq<char>>) -> Seq<Seq<char>>
    decreases pieces.len(),
{
    if pieces.len() == 0 {
        Seq::empty()
    } else {
        let rest = non_blank(pieces.drop_last());
        let t = trim(pieces.last());
        if t.len() > 0 {
            rest.push(t)
        } else {
            rest
        }
    }
}

/// The hosts of a comma-separated list: split, trimmed, blanks dropped.
pub open spec fn allowed_hosts(raw: Seq<char>) -> Seq<Seq<char>> {
    non_blank(split_commas(raw))
}

/// Every host of a list is trimmed and not blank, so no empty or padded
/// value ever widens the `Host` check.
pub proof fn allowed_hosts_are_trimmed_and_not_blank(raw: Seq<char>)
    ensures
        forall|i: int|
            0 <= i < allowed_hosts(raw).len() ==> #[trigger] allowed_hosts(raw)[i].len() > 0 && trim(
                allowed_hosts(raw)[i],
            ) == allowed_hosts(raw)[i],
{
    lemma_non_blank_trimmed(split_commas(raw));
}

proof fn lemma_non_blank_trimmed(pieces: Seq<Seq<char>>)
    ensures
        forall|i: int|
            0 <= i < non_blank(pieces).len() ==> #[trigger] non_blank(pieces)[i].len() > 0 && trim(
                non_blank(pieces)[i],
            ) == non_blank(pieces)[i],
    decreases pieces.len(),
{
    if pieces.len() > 0 {
        lemma_non_blank_trimmed(pieces.drop_last());
        lemma_trim_idempotent(pieces.last());
        let rest = non_blank(pieces.drop_last());
        assert forall|i: int| 0 <= i < non_blank(pieces).len() implies #[trigger] non_blank(
            pieces,
        )[i].len() > 0 && trim(non_blank(pieces)[i]) == non_blank(pieces)[i] by {
            if i < rest.len() {
                assert(non_blank(pieces)[i] == rest[i]);
            }
        }
    }
}

/// The hosts written back as one comma-separated list, as `join(",")` does.
pub open spec fn join_commas(hosts: Seq<Seq<char>>) -> Seq<char>
    decreases hosts.len(),
{
    if hosts.len() == 0 {
        Seq::empty()
    } else if hosts.len() == 1 {
        hosts[0]
    } else {
        join_commas(hosts.drop_last()) + seq![','] + hosts.last()
    }
}

/// No host of a list contains a comma, and writing the hosts back as one
/// comma-separated list reads back the same hosts.
pub proof fn hosts_read_back_from_their_joined_list(raw: Seq<char>)
    ensures
        forall|i: int| 0 <= i < allowed_hosts(raw).len() ==> !(#[trigger] allowed_hosts(raw)[i]).contains(','),
        allowed_hosts(join_commas(allowed_hosts(raw))) == allowed_hosts(raw),
{
    let hs = allowed_hosts(raw);
    lemma_split_pieces_have_no_comma(raw);
    lemma_non_blank_from_pieces(split_commas(raw));
    assert forall|i: int| 0 <= i < hs.len() implies !(#[trigger] hs[i]).contains(',') by {
        let j = choose|j: int|
            0 <= j < split_commas(raw).len() && hs[i] == trim(split_commas(raw)[j]);
        let piece = split_commas(raw)[j];
        let d = lemma_trim_is_a_slice(piece);
        if hs[i].contains(',') {
            let k = choose|k: int| 0 <= k < hs[i].len() && hs[i][k] == ',';
            assert(piece[d + k] == ',');
        }
    }
    allowed_hosts_are_trimmed_and_not_blank(raw);
    if hs.len() == 0 {
        assert(split_commas(join_commas(hs)) =~= seq![Seq::<char>::empty()]);
        let one = seq![Seq::<char>::empty()];
        assert(one.drop_last() =~= Seq::<Seq<char>>::empty());
        assert(one.last() == Seq::<char>::empty());
        assert(trim_start(Seq::<char>::empty()) == Seq::<char>::empty());
        assert(trim_end(Seq::<char>::empty()) == Seq::<char>::empty());
        assert(trim(one.last()).len() == 0);
        assert(non_blank(Seq::<Seq<char>>::empty()) =~= Seq::<Seq<char>>::empty());
        assert(non_blank(one) == non_blank(one.drop_last()));
        assert(non_blank(one) =~= Seq::<Seq<char>>::empty());
    } else {
        lemma_split_join(hs);
        lemma_non_blank_keeps_clean(hs);
    }
}

proof fn lemma_split_commas_nonempty(s: Seq<char>)
    ensures
        split_commas(s).len() >= 1,
    decreases s.len(),
{
    if s.len() > 0 {
        lemma_split_commas_nonempty(s.drop_last());
    }
}

proof fn lemma_split_pieces_have_no_comma(s: Seq<char>)
    ensures
        forall|i: int, k: int|
            0 <= i < split_commas(s).len() && 0 <= k < split_commas(s)[i].len() ==> #[trigger] split_commas(
                s,
            )[i][k] != ',',
    decreases s.len(),
{
    if s.len() > 0 {
        lemma_split_pieces_have_no_comma(s.drop_last());
        lemma_split_commas_nonempty(s.drop_last());
        let init = split_commas(s.drop_last());
        let p = split_commas(s);
        assert forall|i: int, k: int| 0 <= i < p.len() && 0 <= k < p[i].len() implies #[trigger] p[i][k]
            != ',' by {
            if i < init.len() - 1 || (s.last() == ',' && i < init.len()) {
                assert(p[i] == init[i]);
            } else if s.last() != ',' {
                assert(p[i] == init.last().push(s.last()));
                if k < init.last().len() {
                    assert(init[init.len() - 1][k] != ',');
                }
            }
        }
    }
}

proof fn lemma_non_blank_from_pieces(pieces: Seq<Seq<char>>)
    ensures
        forall|i: int|
            0 <= i < non_blank(pieces).len() ==> exists|j: int|
                0 <= j < pieces.len() && #[trigger] non_blank(pieces)[i] == trim(pieces[j]),
    decreases pieces.len(),
{
    if pieces.len() > 0 {
        let init = pieces.drop_last();
        lemma_non_blank_from_pieces(init);
        let rest = non_blank(init);
        assert forall|i: int| 0 <= i < non_blank(pieces).len() implies exists|j: int|
            0 <= j < pieces.len() && #[trigger] non_blank(pieces)[i] == trim(pieces[j]) by {
            if i < rest.len() {
                assert(non_blank(pieces)[i] == rest[i]);
                let j = choose|j: int| 0 <= j < init.len() && rest[i] == trim(init[j]);
                assert(pieces[j] == init[j]);
            } else {
                assert(non_blank(pieces)[i] == trim(pieces[pieces.len() - 1]));
            }
        }
    }
}

proof fn lemma_split_append_text(p: Seq<char>, b: Seq<char>)
    requires
        !b.contains(','),
    ensures
        split_commas(p).len() >= 1,
        split_commas(p + b) == split_commas(p).update(
            split_commas(p).len() - 1,
            split_commas(p).last() + b,
        ),
    decreases b.len(),
{
    lemma_split_commas_nonempty(p);
    let sp = split_commas(p);
    if b.len() == 0 {
        assert(p + b =~= p);
        assert(sp.last() + b =~= sp.last());
        assert(sp.update(sp.len() - 1, sp.last()) =~= sp);
    } else {
        let b0 = b.drop_last();
        assert forall|k: int| 0 <= k < b0.len() implies b0[k] != ',' by {
            assert(b0[k] == b[k]);
        }
        lemma_split_append_text(p, b0);
        let c = b.last();
        assert(b.contains(c));
        let q = p + b;
        assert(q.drop_last() =~= p + b0);
        assert(q.last() == c);
        let s0 = split_commas(p + b0);
        assert(split_commas(q) == s0.update(s0.len() - 1, s0.last().push(c)));
        assert((sp.last() + b0).push(c) =~= sp.last() + b);
        assert(split_commas(q) =~= sp.update(sp.len() - 1, sp.last() + b));
    }
}

proof fn lemma_split_join(hs: Seq<Seq<char>>)
    requires
        hs.len() >= 1,
        forall|i: int| 0 <= i < hs.len() ==> !(#[trigger] hs[i]).contains(','),
    ensures
        split_commas(join_commas(hs)) == hs,
    decreases hs.len(),
{
    if hs.len() == 1 {
        lemma_split_append_text(Seq::empty(), hs[0]);
        assert(Seq::<char>::empty() + hs[0] =~= hs[0]);
        assert(Seq::<char>::empty() + hs[0] =~= hs[0]);
        assert(split_commas(Seq::<char>::empty()) =~= seq![Seq::<char>::empty()]);
        assert(split_commas(hs[0]) =~= hs);
    } else {
        let init = hs.drop_last();
        assert forall|i: int| 0 <= i < init.len() implies !(#[trigger] init[i]).contains(',') by {
            assert(init[i] == hs[i]);
        }
        lemma_split_join(init);
        let j = join_commas(init);
        let jc = j + seq![','];
        assert(jc.drop_last() =~= j);
        assert(jc.last() == ',');
        assert(split_commas(jc) == split_commas(j).push(Seq::empty()));
        assert(!hs[hs.len() - 1].contains(','));
        lemma_split_append_text(jc, hs.last());
        assert(Seq::<char>::empty() + hs.last() =~= hs.last());
        assert(split_commas(jc + hs.last()) =~= hs);
    }
}

proof fn lemma_non_blank_keeps_clean(hs: Seq<Seq<char>>)
    requires
        forall|i: int|
            0 <= i < hs.len() ==> (#[trigger] hs[i]).len() > 0 && trim(hs[i]) == hs[i],
    ensures
        non_blank(hs) == hs,
    decreases hs.len(),
{
    if hs.len() > 0 {
        let init = hs.drop_last();
        assert forall|i: int| 0 <= i < init.len() implies (#[trigger] init[i]).len() > 0 && trim(
            init[i],
        ) == init[i] by {
            assert(init[i] == hs[i]);
        }
        lemma_non_blank_keeps_clean(init);
        assert(hs[hs.len() - 1].len() > 0 && trim(hs[hs.len() - 1]) == hs[hs.len() - 1]);
        assert(init.push(hs.last()) =~= hs);
    } else {
        assert(hs =~= Seq::<Seq<char>>::empty());
    }
}

/// Splits a comma-separated host list, trimming blanks and dropping empties.
pub fn parse_allowed_hosts(raw: &str) -> (hosts: Vec<String>)
    ensures
        strings_view(hosts@) == allowed_hosts(raw@),
{
    let v = chars_of(raw);
    let mut hosts: Vec<String> = Vec::new();
    let mut start: usize = 0;
    let mut i: usize = 0;
    proof {
        assert(v@.take(0) =~= Seq::<char>::empty());
        assert(split_commas(v@.take(0)).drop_last() =~= Seq::<Seq<char>>::empty());
        assert(strings_view(hosts@) =~= Seq::<Seq<char>>::empty());
        assert(v@.subrange(0, 0) =~= Seq::<char>::empty());
    }
    while i < v.len()
        invariant
            start <= i <= v.len(),
            v@ == raw@,
            strings_view(hosts@) == non_blank(split_commas(v@.take(i as int)).drop_last()),
            split_commas(v@.take(i as int)).len() >= 1,
            split_commas(v@.take(i as int)).last() == v@.subrange(start as int, i as int),
        decreases v.len() - i,
    {
        let c = v[i];
        let ghost pieces = split_commas(v@.take(i as int));
        proof {
            assert(v@.take(i + 1).drop_last() =~= v@.take(i as int));
            assert(v@.take(i + 1).last() == c);
        }
        if c == ',' {
            let (a, b) = trim_bounds(&v, start, i);
            let ghost before = strings_view(hosts@);
            if a < b {
                hosts.push(string_of(&v, a, b));
                assert(strings_view(hosts@) =~= before.push(trim(pieces.last())));
            }
            proof {
                let np = split_commas(v@.take(i + 1));
                assert(np == pieces.push(Seq::empty()));
                assert(np.drop_last() =~= pieces);
                assert(pieces.drop_last().push(pieces.last()) =~= pieces);
                assert(v@.subrange(i + 1, i + 1) =~= Seq::<char>::empty());
            }
            start = i + 1;
        } else {
            proof {
                let np = split_commas(v@.take(i + 1));
                assert(np == pieces.update(pieces.len() - 1, pieces.last().push(c)));
                assert(np.drop_last() =~= pieces.drop_last());
                assert(v@.subrange(start as int, i + 1) =~= v@.subrange(start as int, i as int).push(c));
            }
        }
        i = i + 1;
    }
    let (a, b) = trim_bounds(&v, start, i);
    let ghost before = strings_view(hosts@);
    let ghost pieces = split_commas(v@.take(i as int));
    if a < b {
        hosts.push(string_of(&v, a, b));
        assert(strings_view(hosts@) =~= before.push(trim(pieces.last())));
    }
    proof {
        assert(v@.take(i as int) =~= raw@);
        assert(pieces.drop_last().push(pieces.last()) =~= pieces);
    }
    hosts
}

} // verus!
