//! The port specification mini-language: a comma-separated list of single
//! ports and `start-end` ranges, or the literal `common` for a preset of
//! well-known service ports. Parsing yields a strictly ascending,
//! duplicate-free list of ports in `1..=65535`, or a classified error.

use vstd::prelude::*;

use crate::text::{
    chars_of, contains_char, eq_ignore_ascii_case, parse_decimal_u16, spec_eq_ignore_case,
    spec_parse_u16, spec_split, spec_trim, split_char, trim_chars, views_of,
};

verus! {

/// Why a port specification was rejected.
#[derive(Clone, Copy, Debug, PartialEq, Eq, Structural)]
pub enum ParseError {
    /// A token with a dash is not exactly one `start-end` pair.
    InvalidRangeFormat,
    /// A port token or range endpoint is not a number in `1..=65535`.
    InvalidPortNumber,
    /// A range whose start exceeds its end.
    InvalidRange,
    /// The specification holds no ports at all.
    NoPortsSpecified,
}

/// The ports `lo..=hi`.
pub open spec fn interval_set(lo: u16, hi: u16) -> Set<u16> {
    Set::new(|p: u16| lo <= p <= hi)
}

/// What one trimmed token denotes: an inclusive port interval, or an error.
/// A single port stands for the one-port interval.
pub open spec fn spec_token_eval(tok: Seq<char>) -> Result<(u16, u16), ParseError> {
    if tok.contains('-') {
        let parts = spec_split(tok, '-');
        if parts.len() != 2 {
            Err(ParseError::InvalidRangeFormat)
        } else {
            let a = spec_parse_u16(spec_trim(parts[0]));
            let b = spec_parse_u16(spec_trim(parts[1]));
            if a is None || b is None {
                Err(ParseError::InvalidPortNumber)
            } else if a->0 == 0 || b->0 == 0 {
                Err(ParseError::InvalidPortNumber)
            } else if a->0 > b->0 {
                Err(ParseError::InvalidRange)
            } else {
                Ok((a->0, b->0))
            }
        }
    } else {
        match spec_parse_u16(tok) {
            Option::None => Err(ParseError::InvalidPortNumber),
            Option::Some(p) => if p == 0 {
                Err(ParseError::InvalidPortNumber)
            } else {
                Ok((p, p))
            },
        }
    }
}

/// The union of the port intervals of a token list, or the error of the
/// first token that is rejected.
pub open spec fn spec_tokens_eval(toks: Seq<Seq<char>>) -> Result<Set<u16>, ParseError>
    decreases toks.len(),
{
    if toks.len() == 0 {
        Ok(Set::empty())
    } else {
        match spec_tokens_eval(toks.drop_last()) {
            Err(e) => Err(e),
            Ok(s) => match spec_token_eval(toks.last()) {
                Err(e) => Err(e),
                Ok(r) => Ok(s.union(interval_set(r.0, r.1))),
            },
        }
    }
}

/// The trimmed comma-separated tokens of a specification.
pub open spec fn spec_tokens(s: Seq<char>) -> Seq<Seq<char>> {
    spec_split(s, ',').map_values(|t: Seq<char>| spec_trim(t))
}

/// The set of ports a specification denotes, or its error. A specification
/// that is blank (empty or whitespace) holds no ports.
pub open spec fn spec_parse_ports(s: Seq<char>) -> Result<Set<u16>, ParseError> {
    if spec_trim(s).len() == 0 {
        Err(ParseError::NoPortsSpecified)
    } else {
        spec_tokens_eval(spec_tokens(s))
    }
}

/// Each element is strictly below the next: sorted and duplicate-free.
pub open spec fn strictly_ascending(s: Seq<u16>) -> bool {
    forall|i: int, j: int| 0 <= i < j < s.len() ==> s[i] < s[j]
}

/// What `parse_port_range` promises: the ascending vector of exactly the
/// denoted port set on success, and the specification's own error otherwise.
pub open spec fn parse_matches(s: Seq<char>, r: Result<Vec<u16>, ParseError>) -> bool {
    match r {
        Ok(v) => {
            &&& spec_parse_ports(s) matches Ok(ps) && v@.to_set() == ps
            &&& strictly_ascending(v@)
            &&& v@.len() > 0
            &&& forall|i: int| 0 <= i < v@.len() ==> 1 <= #[trigger] v@[i]
        },
        Err(e) => spec_parse_ports(s) == Err::<Set<u16>, ParseError>(e),
    }
}

/// Once some token is rejected, the whole list is, with that first error.
proof fn lemma_tokens_eval_error(toks: Seq<Seq<char>>, i: int, e: ParseError)
    requires
        0 <= i < toks.len(),
        spec_tokens_eval(toks.take(i)) is Ok,
        spec_token_eval(toks[i]) == Err::<(u16, u16), ParseError>(e),
    ensures
        spec_tokens_eval(toks) == Err::<Set<u16>, ParseError>(e),
    decreases toks.len() - i,
{
    assert(toks.take(i + 1).drop_last() =~= toks.take(i));
    assert(toks.take(i + 1).last() == toks[i]);
    assert(spec_tokens_eval(toks.take(i + 1)) == Err::<Set<u16>, ParseError>(e));
    if i + 1 == toks.len() {
        assert(toks.take(i + 1) =~= toks);
    } else {
        lemma_tokens_eval_error_propagates(toks, i + 1, e);
    }
}

/// An error among the first `i` tokens is the error of the whole list.
proof fn lemma_tokens_eval_error_propagates(toks: Seq<Seq<char>>, i: int, e: ParseError)
    requires
        0 <= i <= toks.len(),
        spec_tokens_eval(toks.take(i)) == Err::<Set<u16>, ParseError>(e),
    ensures
        spec_tokens_eval(toks) == Err::<Set<u16>, ParseError>(e),
    decreases toks.len() - i,
{
    if i == toks.len() {
        assert(toks.take(i) =~= toks);
    } else {
        assert(toks.take(i + 1).drop_last() =~= toks.take(i));
        lemma_tokens_eval_error_propagates(toks, i + 1, e);
    }
}

/// Evaluates one trimmed token to its inclusive port interval.
fn eval_token(tok: &Vec<char>) -> (r: Result<(u16, u16), ParseError>)
    ensures
        r == spec_token_eval(tok@),
{
    if contains_char(tok, '-') {
        let parts = split_char(tok, '-');
        assert(views_of(parts@).len() == parts@.len());
        if parts.len() != 2 {
            return Err(ParseError::InvalidRangeFormat);
        }
        assert(parts@[0]@ == spec_split(tok@, '-')[0]);
        assert(parts@[1]@ == spec_split(tok@, '-')[1]);
        let at = trim_chars(&parts[0]);
        let bt = trim_chars(&parts[1]);
        let a = parse_decimal_u16(&at);
        let b = parse_decimal_u16(&bt);
        match (a, b) {
            (Some(lo), Some(hi)) => {
                if lo == 0 || hi == 0 {
                    Err(ParseError::InvalidPortNumber)
                } else if lo > hi {
                    Err(ParseError::InvalidRange)
                } else {
                    Ok((lo, hi))
                }
            },
            _ => Err(ParseError::InvalidPortNumber),
        }
    } else {
        match parse_decimal_u16(tok) {
            Some(p) => {
                if p == 0 {
                    Err(ParseError::InvalidPortNumber)
                } else {
                    Ok((p, p))
                }
            },
            None => Err(ParseError::InvalidPortNumber),
        }
    }
}

/// Puts `p` into an ascending vector, keeping order and dropping duplicates.
fn insert_sorted(acc: &mut Vec<u16>, p: u16)
    requires
        strictly_ascending(old(acc)@),
    ensures
        strictly_ascending(final(acc)@),
        final(acc)@.to_set() == old(acc)@.to_set().insert(p),
        forall|i: int|
            0 <= i < final(acc)@.len() ==> #[trigger] final(acc)@[i] == p || old(acc)@.contains(
                final(acc)@[i],
            ),
{
    let mut idx: usize = 0;
    while idx < acc.len() && acc[idx] < p
        invariant
            0 <= idx <= acc@.len(),
            forall|j: int| 0 <= j < idx ==> #[trigger] acc@[j] < p,
        decreases acc@.len() - idx,
    {
        idx = idx + 1;
    }
    if idx < acc.len() && acc[idx] == p {
        proof {
            assert(acc@.contains(p));
            assert(acc@.to_set() =~= acc@.to_set().insert(p));
        }
        return ;
    }
    proof {
        assert(idx < acc@.len() ==> acc@[idx as int] > p);
    }
    let ghost pre = acc@;
    acc.insert(idx, p);
    proof {
        assert forall|i: int, j: int| 0 <= i < j < acc@.len() implies acc@[i] < acc@[j] by {
            if j < idx {
                assert(acc@[i] == pre[i] && acc@[j] == pre[j]);
            } else if i > idx {
                assert(acc@[i] == pre[i - 1] && acc@[j] == pre[j - 1]);
            } else if i == idx {
                assert(acc@[i] == p && acc@[j] == pre[j - 1] && j - 1 >= idx);
            } else if j == idx {
                assert(acc@[i] == pre[i] && acc@[j] == p);
            } else {
                assert(i < idx && j > idx);
                assert(acc@[i] == pre[i] && acc@[j] == pre[j - 1] && j - 1 >= idx);
            }
        }
        assert forall|q: u16| acc@.to_set().contains(q) implies pre.to_set().insert(p).contains(
            q,
        ) by {
            let k = choose|k: int| 0 <= k < acc@.len() && acc@[k] == q;
            if k < idx {
                assert(pre[k] == q);
            } else if k > idx {
                assert(pre[k - 1] == q);
            }
        }
        assert forall|q: u16| pre.to_set().insert(p).contains(q) implies acc@.to_set().contains(
            q,
        ) by {
            if q == p {
                assert(acc@[idx as int] == q);
            } else {
                let k = choose|k: int| 0 <= k < pre.len() && pre[k] == q;
                if k < idx {
                    assert(acc@[k] == q);
                } else {
                    assert(acc@[k + 1] == q);
                }
            }
        }
        assert(acc@.to_set() =~= pre.to_set().insert(p));
        assert forall|i: int| 0 <= i < acc@.len() implies #[trigger] acc@[i] == p || pre.contains(
            acc@[i],
        ) by {
            if i < idx {
                assert(acc@[i] == pre[i]);
            } else if i > idx {
                assert(acc@[i] == pre[i - 1]);
            }
        }
    }
}

/// Parses a comma-separated port specification of single ports and
/// `start-end` ranges into the ascending, duplicate-free list of the ports
/// it denotes. Rejects malformed tokens, ports outside `1..=65535`,
/// inverted ranges, and blank input, each with its own error.
pub fn parse_port_range(port_spec: &str) -> (r: Result<Vec<u16>, ParseError>)
    ensures
        parse_matches(port_spec@, r),
{
    let cs = chars_of(port_spec);
    let whole = trim_chars(&cs);
    if whole.len() == 0 {
        return Err(ParseError::NoPortsSpecified);
    }
    let raw_tokens = split_char(&cs, ',');
    let ghost toks = spec_tokens(cs@);
    proof {
        assert(toks.len() == raw_tokens@.len());
    }
    let mut acc: Vec<u16> = Vec::new();
    let mut ti: usize = 0;
    proof {
        assert(toks.take(0) =~= Seq::<Seq<char>>::empty());
        assert(acc@.to_set() =~= Set::<u16>::empty());
    }
    while ti < raw_tokens.len()
        invariant
            0 <= ti <= raw_tokens@.len(),
            raw_tokens@.len() == toks.len(),
            toks == spec_tokens(cs@),
            cs@ == port_spec@,
            spec_trim(cs@).len() != 0,
            views_of(raw_tokens@) == spec_split(cs@, ','),
            spec_tokens_eval(toks.take(ti as int)) == Ok::<Set<u16>, ParseError>(acc@.to_set()),
            strictly_ascending(acc@),
            ti >= 1 ==> acc@.len() > 0,
            forall|i: int| 0 <= i < acc@.len() ==> 1 <= #[trigger] acc@[i],
        decreases raw_tokens@.len() - ti,
    {
        let tok = trim_chars(&raw_tokens[ti]);
        proof {
            assert(raw_tokens@[ti as int]@ == spec_split(cs@, ',')[ti as int]);
            assert(tok@ == toks[ti as int]);
        }
        let ghost prev_set = acc@.to_set();
        match eval_token(&tok) {
            Err(e) => {
                proof {
                    lemma_tokens_eval_error(toks, ti as int, e);
                }
                return Err(e);
            },
            Ok((lo, hi)) => {
                let mut p: u32 = lo as u32;
                proof {
                    assert(prev_set.union(Set::new(|q: u16| lo <= q < lo)) =~= prev_set);
                }
                while p <= hi as u32
                    invariant
                        1 <= lo <= hi,
                        lo as u32 <= p <= hi as u32 + 1,
                        acc@.to_set() == prev_set.union(Set::new(|q: u16| lo <= q < p)),
                        strictly_ascending(acc@),
                        p > lo as u32 ==> acc@.len() > 0,
                        forall|i: int| 0 <= i < acc@.len() ==> 1 <= #[trigger] acc@[i],
                    decreases hi as u32 + 1 - p,
                {
                    let ghost before = acc@;
                    insert_sorted(&mut acc, p as u16);
                    proof {
                        assert(acc@.to_set().contains(p as u16));
                        assert(acc@.contains(p as u16));
                        assert(acc@.to_set() =~= prev_set.union(
                            Set::new(|q: u16| lo <= q < p + 1),
                        ));
                        assert forall|i: int| 0 <= i < acc@.len() implies 1 <= #[trigger] acc@[i]
                        by {
                            if acc@[i] != p as u16 {
                                assert(before.contains(acc@[i]));
                            }
                        }
                    }
                    p = p + 1;
                }
                proof {
                    assert(Set::new(|q: u16| lo <= q < p) =~= interval_set(lo, hi));
                    assert(toks.take(ti + 1).drop_last() =~= toks.take(ti as int));
                    assert(toks.take(ti + 1).last() == toks[ti as int]);
                    assert(spec_tokens_eval(toks.take(ti + 1)) == Ok::<Set<u16>, ParseError>(
                        acc@.to_set(),
                    ));
                }
            },
        }
        ti = ti + 1;
    }
    proof {
        assert(toks.take(toks.len() as int) =~= toks);
    }
    Ok(acc)
}

/// The preset of well-known service ports behind the `common` literal.
pub open spec fn common_ports_list() -> Seq<u16> {
    seq![
        20u16,
        21u16,
        22u16,
        23u16,
        25u16,
        53u16,
        80u16,
        110u16,
        143u16,
        443u16,
        993u16,
        995u16,
        1433u16,
        3306u16,
        5432u16,
        6379u16,
        27017u16,
    ]
}

/// The preset list is already sorted, duplicate-free, and within `1..=65535`.
pub proof fn lemma_common_ports_sorted()
    ensures
        strictly_ascending(common_ports_list()),
        forall|i: int| 0 <= i < common_ports_list().len() ==> 1 <= #[trigger] common_ports_list()[i],
{
    let s = common_ports_list();
    assert(strictly_ascending(s));
    assert(forall|i: int| 0 <= i < s.len() ==> 1 <= #[trigger] s[i]);
}

/// The built-in list of common service ports.
pub fn get_common_ports() -> (r: Vec<u16>)
    ensures
        r@ == common_ports_list(),
{
    let mut v: Vec<u16> = Vec::new();
    v.push(20);
    v.push(21);
    v.push(22);
    v.push(23);
    v.push(25);
    v.push(53);
    v.push(80);
    v.push(110);
    v.push(143);
    v.push(443);
    v.push(993);
    v.push(995);
    v.push(1433);
    v.push(3306);
    v.push(5432);
    v.push(6379);
    v.push(27017);
    assert(v@ =~= common_ports_list());
    v
}

/// Whether a specification is the case-insensitive literal `common`,
/// once surrounding whitespace is dropped.
pub open spec fn is_common_literal(s: Seq<char>) -> bool {
    spec_eq_ignore_case(spec_trim(s), "common"@)
}

/// The ports a scan should visit: the common-port preset for the `common`
/// literal, and the parsed specification otherwise.
pub fn select_ports(port_spec: &str) -> (r: Result<Vec<u16>, ParseError>)
    ensures
        is_common_literal(port_spec@) ==> (r matches Ok(v) && v@ == common_ports_list()),
        !is_common_literal(port_spec@) ==> parse_matches(port_spec@, r),
{
    let cs = chars_of(port_spec);
    let trimmed = trim_chars(&cs);
    let common = chars_of("common");
    if eq_ignore_ascii_case(&trimmed, &common) {
        Ok(get_common_ports())
    } else {
        parse_port_range(port_spec)
    }
}

/// The well-known service name of a port, or the empty string.
pub open spec fn spec_service_name(port: u16) -> Seq<char> {
    if port == 21 {
        "FTP"@
    } else if port == 22 {
        "SSH"@
    } else if port == 23 {
        "Telnet"@
    } else if port == 25 {
        "SMTP"@
    } else if port == 53 {
        "DNS"@
    } else if port == 80 {
        "HTTP"@
    } else if port == 110 {
        "POP3"@
    } else if port == 143 {
        "IMAP"@
    } else if port == 443 {
        "HTTPS"@
    } else if port == 993 {
        "IMAPS"@
    } else if port == 995 {
        "POP3S"@
    } else if port == 3306 {
        "MySQL"@
    } else if port == 5432 {
        "PostgreSQL"@
    } else if port == 6379 {
        "Redis"@
    } else if port == 27017 {
        "MongoDB"@
    } else {
        ""@
    }
}

/// Best-effort service name for the report of an open port.
pub fn get_service_name(port: u16) -> (r: &'static str)
    ensures
        r@ == spec_service_name(port),
{
    if port == 21 {
        "FTP"
    } else if port == 22 {
        "SSH"
    } else if port == 23 {
        "Telnet"
    } else if port == 25 {
        "SMTP"
    } else if port == 53 {
        "DNS"
    } else if port == 80 {
        "HTTP"
    } else if port == 110 {
        "POP3"
    } else if port == 143 {
        "IMAP"
    } else if port == 443 {
        "HTTPS"
    } else if port == 993 {
        "IMAPS"
    } else if port == 995 {
        "POP3S"
    } else if port == 3306 {
        "MySQL"
    } else if port == 5432 {
        "PostgreSQL"
    } else if port == 6379 {
        "Redis"
    } else if port == 27017 {
        "MongoDB"
    } else {
        ""
    }
}

} // verus!
