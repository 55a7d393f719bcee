//! The on-disk shape of the usage store: one block of four lines per
//! record. The writer and the reader are both here, each pinned to a
//! mathematical description, and parsing a written store is proved to
//! give the records back unchanged.
//!
//! A written store looks like
//!
//! ```text
//! [[entries]]
//! name = "Firefox"
//! launch_count = 3
//! blacklisted = false
//! ```
//!
//! repeated once per record. In names, backslash, double quote and
//! newline are escaped with a backslash.

use vstd::prelude::*;

use crate::db::{entry_views, Db, DbEntry, DbEntryV};
use crate::strutil::push_char;
use vstd::string::StringExecFns;

verus! {

/// How one character of a name is written.
pub open spec fn esc_char(c: char) -> Seq<char> {
    if c == '\\' {
        seq!['\\', '\\']
    } else if c == '"' {
        seq!['\\', '"']
    } else if c == '\n' {
        seq!['\\', 'n']
    } else {
        seq![c]
    }
}

/// How a whole name is written.
pub open spec fn esc(s: Seq<char>) -> Seq<char>
    decreases s.len(),
{
    if s.len() == 0 {
        Seq::empty()
    } else {
        esc_char(s[0]) + esc(s.skip(1))
    }
}

pub proof fn lemma_esc_push(s: Seq<char>, c: char)
    ensures
        esc(s.push(c)) == esc(s) + esc_char(c),
    decreases s.len(),
{
    if s.len() == 0 {
        reveal_with_fuel(esc, 2);
        assert(s.push(c)[0] == c);
        assert(s.push(c).skip(1) =~= Seq::<char>::empty());
        assert(esc(s.push(c)) =~= esc_char(c));
        assert(esc(s) + esc_char(c) =~= esc_char(c));
    } else {
        assert(s.push(c)[0] == s[0]);
        assert(s.push(c).skip(1) =~= s.skip(1).push(c));
        lemma_esc_push(s.skip(1), c);
        assert(esc_char(s[0]) + (esc(s.skip(1)) + esc_char(c)) =~= (esc_char(s[0]) + esc(
            s.skip(1),
        )) + esc_char(c));
    }
}

/// The decimal digit for a value below ten.
pub open spec fn dec_digit(d: nat) -> char {
    if d == 0 {
        '0'
    } else if d == 1 {
        '1'
    } else if d == 2 {
        '2'
    } else if d == 3 {
        '3'
    } else if d == 4 {
        '4'
    } else if d == 5 {
        '5'
    } else if d == 6 {
        '6'
    } else if d == 7 {
        '7'
    } else if d == 8 {
        '8'
    } else {
        '9'
    }
}

/// The canonical decimal digits of a number: no sign, no leading zero
/// except for zero itself.
pub open spec fn dec_rep(n: nat) -> Seq<char>
    decreases n,
{
    if n < 10 {
        seq![dec_digit(n)]
    } else {
        dec_rep(n / 10).push(dec_digit(n % 10))
    }
}

/// How a flag is written.
pub open spec fn bool_rep(b: bool) -> Seq<char> {
    if b {
        "true"@
    } else {
        "false"@
    }
}

/// One record as its four lines.
pub open spec fn emit_entry(e: DbEntryV) -> Seq<char> {
    "[[entries]]\nname = \""@ + esc(e.name) + seq!['"'] + "\nlaunch_count = "@ + dec_rep(
        e.launch_count,
    ) + "\nblacklisted = "@ + bool_rep(e.blacklisted) + "\n"@
}

/// A whole store: the records' blocks, in order.
pub open spec fn emit_store(es: Seq<DbEntryV>) -> Seq<char>
    decreases es.len(),
{
    if es.len() == 0 {
        Seq::empty()
    } else {
        emit_entry(es[0]) + emit_store(es.skip(1))
    }
}

/// Appends a name with its escapes.
fn push_escaped(out: &mut String, s: &str)
    ensures
        final(out)@ == old(out)@ + esc(s@),
{
    let len = s.unicode_len();
    let mut i: usize = 0;
    proof {
        assert(s@.take(0) =~= Seq::<char>::empty());
        assert(old(out)@ + esc(s@.take(0)) =~= old(out)@);
    }
    while i < len
        invariant
            len == s@.len(),
            i <= len,
            out@ == old(out)@ + esc(s@.take(i as int)),
        decreases len - i,
    {
        let c = s.get_char(i);
        if c == '\\' {
            push_char(out, '\\');
            push_char(out, '\\');
        } else if c == '"' {
            push_char(out, '\\');
            push_char(out, '"');
        } else if c == '\n' {
            push_char(out, '\\');
            push_char(out, 'n');
        } else {
            push_char(out, c);
        }
        proof {
            lemma_esc_push(s@.take(i as int), s@[i as int]);
            assert(s@.take(i + 1) =~= s@.take(i as int).push(s@[i as int]));
            assert(out@ =~= old(out)@ + esc(s@.take(i + 1)));
        }
        i += 1;
    }
    assert(s@.take(len as int) =~= s@);
}

/// The digit character of a value below ten.
fn digit_char(d: usize) -> (c: char)
    requires
        d < 10,
    ensures
        c == dec_digit(d as nat),
{
    if d == 0 {
        '0'
    } else if d == 1 {
        '1'
    } else if d == 2 {
        '2'
    } else if d == 3 {
        '3'
    } else if d == 4 {
        '4'
    } else if d == 5 {
        '5'
    } else if d == 6 {
        '6'
    } else if d == 7 {
        '7'
    } else if d == 8 {
        '8'
    } else {
        '9'
    }
}

/// Appends the decimal digits of a number.
fn push_dec(out: &mut String, n: usize)
    ensures
        final(out)@ == old(out)@ + dec_rep(n as nat),
    decreases n,
{
    if n >= 10 {
        push_dec(out, n / 10);
        push_char(out, digit_char(n % 10));
        assert(out@ =~= old(out)@ + dec_rep(n as nat));
    } else {
        push_char(out, digit_char(n));
        assert(out@ =~= old(out)@ + dec_rep(n as nat));
    }
}

/// Appends one record's block.
fn push_entry(out: &mut String, e: &DbEntry)
    ensures
        final(out)@ == old(out)@ + emit_entry(e@),
{
    out.append("[[entries]]\nname = \"");
    push_escaped(out, e.name.as_str());
    push_char(out, '"');
    out.append("\nlaunch_count = ");
    push_dec(out, e.launch_count);
    out.append("\nblacklisted = ");
    if e.blacklisted {
        out.append("true");
    } else {
        out.append("false");
    }
    out.append("\n");
    assert(out@ =~= old(out)@ + emit_entry(e@));
}

impl Db {
    /// The text under which the given records are persisted.
    pub fn to_store_string(entries: &Vec<DbEntry>) -> (r: String)
        ensures
            r@ == emit_store(entry_views(entries@)),
    {
        let mut out = String::new();
        let n = entries.len();
        let mut i: usize = 0;
        proof {
            assert(entry_views(entries@).take(0) =~= Seq::<DbEntryV>::empty());
            assert(out@ =~= emit_store(entry_views(entries@).take(0)));
        }
        while i < n
            invariant
                n == entries@.len(),
                i <= n,
                out@ == emit_store(entry_views(entries@).take(i as int)),
            decreases n - i,
        {
            push_entry(&mut out, &entries[i]);
            proof {
                let vs = entry_views(entries@);
                lemma_emit_store_push(vs.take(i as int), vs[i as int]);
                assert(vs.take(i + 1) =~= vs.take(i as int).push(vs[i as int]));
                assert(vs[i as int] == entries@[i as int]@);
                assert(out@ =~= emit_store(vs.take(i + 1)));
            }
            i += 1;
        }
        assert(entry_views(entries@).take(n as int) =~= entry_views(entries@));
        out
    }
}

pub proof fn lemma_emit_store_push(es: Seq<DbEntryV>, e: DbEntryV)
    ensures
        emit_store(es.push(e)) == emit_store(es) + emit_entry(e),
    decreases es.len(),
{
    if es.len() == 0 {
        reveal_with_fuel(emit_store, 2);
        assert(es.push(e)[0] == e);
        assert(es.push(e).skip(1) =~= Seq::<DbEntryV>::empty());
        assert(emit_store(es.push(e)) =~= emit_entry(e));
        assert(emit_store(es) + emit_entry(e) =~= emit_entry(e));
    } else {
        assert(es.push(e)[0] == es[0]);
        assert(es.push(e).skip(1) =~= es.skip(1).push(e));
        lemma_emit_store_push(es.skip(1), e);
        assert(emit_entry(es[0]) + (emit_store(es.skip(1)) + emit_entry(e)) =~= (emit_entry(es[0])
            + emit_store(es.skip(1))) + emit_entry(e));
    }
}

// ---------------------------------------------------------------------
// Reading a store back.
// ---------------------------------------------------------------------
/// Consumes an expected literal prefix.
pub open spec fn parse_lit(s: Seq<char>, lit: Seq<char>) -> Option<Seq<char>> {
    if lit.len() <= s.len() && s.take(lit.len() as int) == lit {
        Some(s.skip(lit.len() as int))
    } else {
        None
    }
}

/// The character an escape pair stands for.
pub open spec fn unesc_char(c: char) -> char {
    if c == 'n' {
        '\n'
    } else {
        c
    }
}

/// Consumes a quoted name's content and its closing quote: the inverse
/// of `esc`.
pub open spec fn parse_qchars(s: Seq<char>) -> Option<(Seq<char>, Seq<char>)>
    decreases s.len(),
{
    if s.len() == 0 {
        None
    } else if s[0] == '"' {
        Some((Seq::empty(), s.skip(1)))
    } else if s[0] == '\\' {
        if s.len() >= 2 && (s[1] == '\\' || s[1] == '"' || s[1] == 'n') {
            match parse_qchars(s.skip(2)) {
                Some(p) => Some((seq![unesc_char(s[1])] + p.0, p.1)),
                None => None,
            }
        } else {
            None
        }
    } else {
        match parse_qchars(s.skip(1)) {
            Some(p) => Some((seq![s[0]] + p.0, p.1)),
            None => None,
        }
    }
}

pub open spec fn is_digit(c: char) -> bool {
    '0' <= c && c <= '9'
}

/// The numeric value of one digit character.
pub open spec fn digit_val(c: char) -> nat {
    (c as int - '0' as int) as nat
}

/// How many leading characters of `s` are digits.
pub open spec fn take_digits(s: Seq<char>) -> int
    decreases s.len(),
{
    if s.len() == 0 || !is_digit(s[0]) {
        0
    } else {
        1 + take_digits(s.skip(1))
    }
}

pub proof fn lemma_take_digits_bounds(s: Seq<char>)
    ensures
        0 <= take_digits(s) <= s.len(),
    decreases s.len(),
{
    if s.len() == 0 || !is_digit(s[0]) {
    } else {
        lemma_take_digits_bounds(s.skip(1));
    }
}

/// The value of a digit string, most significant digit first.
pub open spec fn digits_val(s: Seq<char>) -> nat
    decreases s.len(),
{
    if s.len() == 0 {
        0
    } else {
        digits_val(s.drop_last()) * 10 + digit_val(s.last())
    }
}

/// Consumes a run of digits and yields its value.
pub open spec fn parse_number(s: Seq<char>) -> Option<(nat, Seq<char>)> {
    let k = take_digits(s);
    if k == 0 {
        None
    } else {
        Some((digits_val(s.take(k)), s.skip(k)))
    }
}

/// Consumes a boolean literal.
pub open spec fn parse_bool(s: Seq<char>) -> Option<(bool, Seq<char>)> {
    match parse_lit(s, "true"@) {
        Some(r) => Some((true, r)),
        None => match parse_lit(s, "false"@) {
            Some(r) => Some((false, r)),
            None => None,
        },
    }
}

/// Consumes one record's block. A launch count too large for the
/// machine is rejected.
pub open spec fn parse_entry(s: Seq<char>) -> Option<(DbEntryV, Seq<char>)> {
    match parse_lit(s, "[[entries]]\nname = \""@) {
        None => None,
        Some(s1) => match parse_qchars(s1) {
            None => None,
            Some((name, s2)) => match parse_lit(s2, "\nlaunch_count = "@) {
                None => None,
                Some(s3) => match parse_number(s3) {
                    None => None,
                    Some((count, s4)) => if count > usize::MAX as nat {
                        None
                    } else {
                        match parse_lit(s4, "\nblacklisted = "@) {
                            None => None,
                            Some(s5) => match parse_bool(s5) {
                                None => None,
                                Some((b, s6)) => match parse_lit(s6, "\n"@) {
                                    None => None,
                                    Some(s7) => Some(
                                        (
                                            DbEntryV {
                                                name,
                                                launch_count: count,
                                                blacklisted: b,
                                            },
                                            s7,
                                        ),
                                    ),
                                },
                            },
                        }
                    },
                },
            },
        },
    }
}

/// Consumes a whole store: record blocks until the end of the text.
pub open spec fn parse_store(s: Seq<char>) -> Option<Seq<DbEntryV>>
    decreases s.len(),
{
    if s.len() == 0 {
        Some(Seq::empty())
    } else {
        match parse_entry(s) {
            None => None,
            Some((e, r)) => if r.len() < s.len() {
                match parse_store(r) {
                    None => None,
                    Some(es) => Some(seq![e] + es),
                }
            } else {
                None
            },
        }
    }
}

// ---------------------------------------------------------------------
// Reading back what was written gives the records back.
// ---------------------------------------------------------------------
pub proof fn lemma_parse_lit_prefix(lit: Seq<char>, rest: Seq<char>)
    ensures
        parse_lit(lit + rest, lit) == Some(rest),
{
    assert((lit + rest).take(lit.len() as int) =~= lit);
    assert((lit + rest).skip(lit.len() as int) =~= rest);
}

pub proof fn lemma_parse_qchars_esc(name: Seq<char>, rest: Seq<char>)
    ensures
        parse_qchars(esc(name) + seq!['"'] + rest) == Some((name, rest)),
    decreases name.len(),
{
    let s = esc(name) + seq!['"'] + rest;
    if name.len() == 0 {
        assert(esc(name) =~= Seq::<char>::empty());
        assert(s =~= seq!['"'] + rest);
        assert(s[0] == '"');
        assert(s.skip(1) =~= rest);
        assert(name =~= Seq::<char>::empty());
    } else {
        let c = name[0];
        let tail = name.skip(1);
        assert(esc(name) == esc_char(c) + esc(tail));
        lemma_parse_qchars_esc(tail, rest);
        let s2 = esc(tail) + seq!['"'] + rest;
        assert(seq![c] + tail =~= name);
        if c == '\\' || c == '"' || c == '\n' {
            let e = if c == '\\' {
                '\\'
            } else if c == '"' {
                '"'
            } else {
                'n'
            };
            assert(esc_char(c) =~= seq!['\\', e]);
            assert(s.len() >= 2);
            assert(s[0] == '\\');
            assert(s[1] == e);
            assert(unesc_char(e) == c);
            assert(s.skip(2) =~= s2);
        } else {
            assert(esc_char(c) =~= seq![c]);
            assert(s[0] == c);
            assert(s.skip(1) =~= s2);
        }
    }
}

pub proof fn lemma_dec_rep_digits(n: nat)
    ensures
        dec_rep(n).len() >= 1,
        forall|i: int| 0 <= i < dec_rep(n).len() ==> is_digit(#[trigger] dec_rep(n)[i]),
    decreases n,
{
    if n < 10 {
    } else {
        lemma_dec_rep_digits(n / 10);
        assert forall|i: int| 0 <= i < dec_rep(n).len() implies is_digit(
            #[trigger] dec_rep(n)[i],
        ) by {
            if i < dec_rep(n / 10).len() {
                assert(dec_rep(n)[i] == dec_rep(n / 10)[i]);
            } else {
                assert(dec_rep(n)[i] == dec_digit(n % 10));
            }
        }
    }
}

pub proof fn lemma_dec_rep_val(n: nat)
    ensures
        digits_val(dec_rep(n)) == n,
    decreases n,
{
    if n < 10 {
        reveal_with_fuel(digits_val, 2);
        let s = dec_rep(n);
        assert(s.drop_last() =~= Seq::<char>::empty());
        assert(s.last() == dec_digit(n));
        assert(digit_val(dec_digit(n)) == n);
    } else {
        lemma_dec_rep_val(n / 10);
        let s = dec_rep(n);
        assert(s == dec_rep(n / 10).push(dec_digit(n % 10)));
        assert(s.drop_last() =~= dec_rep(n / 10));
        assert(s.last() == dec_digit(n % 10));
        assert(digit_val(dec_digit(n % 10)) == n % 10);
        assert(n / 10 * 10 + n % 10 == n) by {
            vstd::arithmetic::div_mod::lemma_fundamental_div_mod(n as int, 10);
        };
    }
}

pub proof fn lemma_take_digits_concat(ds: Seq<char>, rest: Seq<char>)
    requires
        forall|i: int| 0 <= i < ds.len() ==> is_digit(#[trigger] ds[i]),
        rest.len() == 0 || !is_digit(rest[0]),
    ensures
        take_digits(ds + rest) == ds.len(),
    decreases ds.len(),
{
    if ds.len() == 0 {
        assert(ds + rest =~= rest);
    } else {
        assert((ds + rest)[0] == ds[0]);
        assert((ds + rest).skip(1) =~= ds.skip(1) + rest);
        lemma_take_digits_concat(ds.skip(1), rest);
    }
}

pub proof fn lemma_parse_number_rep(n: nat, rest: Seq<char>)
    requires
        rest.len() == 0 || !is_digit(rest[0]),
    ensures
        parse_number(dec_rep(n) + rest) == Some((n, rest)),
{
    lemma_dec_rep_digits(n);
    lemma_take_digits_concat(dec_rep(n), rest);
    let s = dec_rep(n) + rest;
    let k = take_digits(s);
    assert(s.take(k) =~= dec_rep(n));
    assert(s.skip(k) =~= rest);
    lemma_dec_rep_val(n);
}

pub proof fn lemma_parse_bool_rep(b: bool, rest: Seq<char>)
    ensures
        parse_bool(bool_rep(b) + rest) == Some((b, rest)),
{
    reveal_strlit("true");
    reveal_strlit("false");
    if b {
        lemma_parse_lit_prefix("true"@, rest);
    } else {
        let s = "false"@ + rest;
        assert(parse_lit(s, "true"@) is None) by {
            if parse_lit(s, "true"@) is Some {
                assert(s.take(4)[0] == s[0]);
                assert(s[0] == 'f');
            }
        }
        lemma_parse_lit_prefix("false"@, rest);
    }
}

pub proof fn lemma_parse_entry_emit(e: DbEntryV, rest: Seq<char>)
    requires
        e.launch_count <= usize::MAX,
    ensures
        parse_entry(emit_entry(e) + rest) == Some((e, rest)),
{
    let s = emit_entry(e) + rest;
    let lit1 = "[[entries]]\nname = \""@;
    let lit2 = "\nlaunch_count = "@;
    let lit3 = "\nblacklisted = "@;
    let nl = "\n"@;
    let r5 = nl + rest;
    let r4 = bool_rep(e.blacklisted) + r5;
    let r3 = lit3 + r4;
    let r2 = dec_rep(e.launch_count) + r3;
    let r1 = lit2 + r2;
    let r0 = esc(e.name) + seq!['"'] + r1;
    assert(s =~= lit1 + r0);
    lemma_parse_lit_prefix(lit1, r0);
    assert(r0 =~= (esc(e.name) + seq!['"']) + r1);
    lemma_parse_qchars_esc(e.name, r1);
    lemma_parse_lit_prefix(lit2, r2);
    reveal_strlit("\nblacklisted = ");
    assert(r3[0] == '\n');
    assert(!is_digit('\n'));
    lemma_parse_number_rep(e.launch_count, r3);
    lemma_parse_lit_prefix(lit3, r4);
    lemma_parse_bool_rep(e.blacklisted, r5);
    lemma_parse_lit_prefix(nl, rest);
}

pub proof fn lemma_emit_entry_len(e: DbEntryV)
    ensures
        emit_entry(e).len() > 0,
{
    reveal_strlit("[[entries]]\nname = \"");
}

/// Writing records and reading them back gives exactly the records:
/// the persistence round trip loses nothing.
pub proof fn lemma_store_round_trip(es: Seq<DbEntryV>)
    requires
        forall|i: int| 0 <= i < es.len() ==> #[trigger] es[i].launch_count <= usize::MAX,
    ensures
        parse_store(emit_store(es)) == Some(es),
    decreases es.len(),
{
    if es.len() == 0 {
        assert(emit_store(es).len() == 0);
        assert(es =~= Seq::<DbEntryV>::empty());
    } else {
        let s = emit_store(es);
        let tail = emit_store(es.skip(1));
        assert(s == emit_entry(es[0]) + tail);
        lemma_emit_entry_len(es[0]);
        assert(s.len() > 0);
        lemma_parse_entry_emit(es[0], tail);
        assert(tail.len() < s.len());
        assert(forall|i: int|
            0 <= i < es.skip(1).len() ==> #[trigger] es.skip(1)[i].launch_count <= usize::MAX);
        lemma_store_round_trip(es.skip(1));
        assert(seq![es[0]] + es.skip(1) =~= es);
    }
}

// ---------------------------------------------------------------------
// The executable reader.
// ---------------------------------------------------------------------
/// Bounds on a product of ten, phrased through division: the test the
/// reader uses to spot a launch count too large for the machine.
proof fn lemma_le_div10(x: nat, y: nat)
    ensures
        (x <= y / 10) <==> (10 * x <= y),
{
    vstd::arithmetic::div_mod::lemma_fundamental_div_mod(y as int, 10);
    vstd::arithmetic::div_mod::lemma_mod_bound(y as int, 10);
    assert((x <= y / 10) <==> (10 * x <= y)) by (nonlinear_arith)
        requires
            y == 10 * (y / 10) + y % 10,
            0 <= y % 10 < 10,
    ;
}

/// Consumes the literal at position `i`, yielding the position after it.
fn parse_lit_at(v: &Vec<char>, i: usize, lit: &str) -> (r: Option<usize>)
    requires
        i <= v@.len(),
    ensures
        match r {
            Some(j) => j == i + lit@.len() && j <= v@.len() && parse_lit(v@.skip(i as int), lit@)
                == Some(v@.skip(j as int)),
            None => parse_lit(v@.skip(i as int), lit@) is None,
        },
{
    let n = v.len();
    let m = lit.unicode_len();
    if m > n - i {
        assert(v@.skip(i as int).len() < m);
        return None;
    }
    let mut k: usize = 0;
    while k < m
        invariant
            n == v@.len(),
            m == lit@.len(),
            i + m <= n,
            k <= m,
            forall|t: int| 0 <= t < k ==> v@[i + t] == lit@[t],
        decreases m - k,
    {
        if v[i + k] != lit.get_char(k) {
            proof {
                assert(v@.skip(i as int).take(m as int)[k as int] == v@[i + k]);
            }
            return None;
        }
        k += 1;
    }
    proof {
        assert(v@.skip(i as int).take(m as int) =~= lit@);
        assert(v@.skip(i as int).skip(m as int) =~= v@.skip(i + m));
    }
    Some(i + m)
}

/// The quoted-name reading seen from partway through: what was already
/// unescaped, joined with what the rest of the text yields.
pub open spec fn qchars_ctx(prefix: Seq<char>, s: Seq<char>) -> Option<(Seq<char>, Seq<char>)> {
    match parse_qchars(s) {
        Some(p) => Some((prefix + p.0, p.1)),
        None => None,
    }
}

/// Consumes a quoted name's content and closing quote from position `i`.
fn parse_qchars_at(v: &Vec<char>, i: usize) -> (r: Option<(String, usize)>)
    requires
        i <= v@.len(),
    ensures
        match r {
            Some(p) => i <= p.1 <= v@.len() && parse_qchars(v@.skip(i as int)) == Some(
                (p.0@, v@.skip(p.1 as int)),
            ),
            None => parse_qchars(v@.skip(i as int)) is None,
        },
{
    let n = v.len();
    let mut out = String::new();
    let mut p: usize = i;
    proof {
        assert(out@ + Seq::<char>::empty() =~= out@);
    }
    while p < n
        invariant
            n == v@.len(),
            i <= p <= n,
            parse_qchars(v@.skip(i as int)) == qchars_ctx(out@, v@.skip(p as int)),
        decreases n - p,
    {
        let ghost rem = v@.skip(p as int);
        proof {
            assert(rem[0] == v@[p as int]);
            assert(rem.skip(1) =~= v@.skip(p + 1));
        }
        let c = v[p];
        if c == '"' {
            proof {
                assert(parse_qchars(rem) == Some((Seq::<char>::empty(), v@.skip(p + 1))));
                assert(out@ + Seq::<char>::empty() =~= out@);
            }
            return Some((out, p + 1));
        } else if c == '\\' {
            if p + 1 >= n {
                assert(rem.len() < 2);
                return None;
            }
            let e = v[p + 1];
            proof {
                assert(rem[1] == v@[p + 1]);
                assert(rem.skip(2) =~= v@.skip(p + 2));
            }
            if e == '\\' || e == '"' || e == 'n' {
                let u = if e == 'n' {
                    '\n'
                } else {
                    e
                };
                assert(u == unesc_char(e));
                let ghost prefix = out@;
                push_char(&mut out, u);
                proof {
                    if parse_qchars(rem.skip(2)) is Some {
                        let q = parse_qchars(rem.skip(2))->Some_0;
                        assert(prefix + (seq![u] + q.0) =~= out@ + q.0);
                    }
                    assert(qchars_ctx(prefix, rem) == qchars_ctx(out@, v@.skip(p + 2)));
                }
                p = p + 2;
            } else {
                return None;
            }
        } else {
            let ghost prefix = out@;
            push_char(&mut out, c);
            proof {
                if parse_qchars(rem.skip(1)) is Some {
                    let q = parse_qchars(rem.skip(1))->Some_0;
                    assert(prefix + (seq![c] + q.0) =~= out@ + q.0);
                }
                assert(qchars_ctx(prefix, rem) == qchars_ctx(out@, v@.skip(p + 1)));
            }
            p = p + 1;
        }
    }
    assert(v@.skip(p as int).len() == 0);
    None
}

/// A digit-prefix value never shrinks as the prefix grows.
proof fn lemma_digits_val_prefix_le(s: Seq<char>, j: int)
    requires
        0 <= j <= s.len(),
    ensures
        digits_val(s.take(j)) <= digits_val(s),
    decreases s.len() - j,
{
    if j == s.len() {
        assert(s.take(j) =~= s);
    } else {
        lemma_digits_val_prefix_le(s, j + 1);
        assert(s.take(j + 1).drop_last() =~= s.take(j));
        assert(digits_val(s.take(j + 1)) == digits_val(s.take(j)) * 10 + digit_val(
            s.take(j + 1).last(),
        ));
    }
}

/// Consumes a digit run from position `i`, yielding its value; a value
/// too large for the machine is reported as a failure, as the record
/// reader treats it.
fn parse_number_at(v: &Vec<char>, i: usize) -> (r: Option<(usize, usize)>)
    requires
        i <= v@.len(),
    ensures
        match r {
            Some(p) => i < p.1 <= v@.len() && parse_number(v@.skip(i as int)) == Some(
                (p.0 as nat, v@.skip(p.1 as int)),
            ),
            None => match parse_number(v@.skip(i as int)) {
                Some(q) => q.0 > usize::MAX as nat,
                None => true,
            },
        },
{
    let n = v.len();
    let ghost rem = v@.skip(i as int);
    let mut k: usize = 0;
    proof {
        assert(rem.skip(0) =~= rem);
    }
    while i + k < n && v[i + k] >= '0' && v[i + k] <= '9'
        invariant
            n == v@.len(),
            rem == v@.skip(i as int),
            i + k <= n,
            take_digits(rem) == k + take_digits(rem.skip(k as int)),
            forall|t: int| 0 <= t < k ==> is_digit(#[trigger] rem[t]),
        decreases n - i - k,
    {
        proof {
            assert(rem.skip(k as int)[0] == rem[k as int]);
            assert(rem[k as int] == v@[i + k]);
            assert(is_digit(v@[i + k]));
            assert(rem.skip(k as int).skip(1) =~= rem.skip(k + 1));
        }
        k += 1;
    }
    proof {
        if i + k < n {
            assert(rem.skip(k as int)[0] == v@[i + k]);
            assert(!is_digit(v@[i + k]));
            assert(take_digits(rem.skip(k as int)) == 0);
        } else {
            assert(rem.skip(k as int).len() == 0);
            assert(take_digits(rem.skip(k as int)) == 0);
        }
        assert(take_digits(rem) == k);
    }
    if k == 0 {
        return None;
    }
    let ghost ds = rem.take(k as int);
    let mut val: usize = 0;
    let mut t: usize = 0;
    proof {
        assert(ds.take(0) =~= Seq::<char>::empty());
    }
    while t < k
        invariant
            n == v@.len(),
            rem == v@.skip(i as int),
            ds == rem.take(k as int),
            take_digits(rem) == k,
            1 <= k,
            i + k <= n,
            t <= k,
            forall|x: int| 0 <= x < k ==> is_digit(#[trigger] rem[x]),
            val as nat == digits_val(ds.take(t as int)),
        decreases k - t,
    {
        let c = v[i + t];
        proof {
            assert(rem[t as int] == v@[i + t]);
            assert(ds[t as int] == rem[t as int]);
            assert(is_digit(c));
        }
        let d = ((c as u32) - ('0' as u32)) as usize;
        assert(d as nat == digit_val(c));
        assert(d <= 9);
        proof {
            lemma_le_div10(val as nat, (usize::MAX - d) as nat);
            assert(ds.take(t + 1).drop_last() =~= ds.take(t as int));
            assert(ds.take(t + 1).last() == ds[t as int]);
            assert(digits_val(ds.take(t + 1)) == digits_val(ds.take(t as int)) * 10 + digit_val(
                ds[t as int],
            ));
        }
        if val > (usize::MAX - d) / 10 {
            proof {
                assert(10 * (val as nat) > usize::MAX - d);
                assert(digits_val(ds.take(t + 1)) > usize::MAX as nat);
                lemma_digits_val_prefix_le(ds, t + 1);
                assert(digits_val(ds) > usize::MAX as nat);
            }
            return None;
        }
        proof {
            assert(10 * (val as nat) <= usize::MAX - d);
        }
        val = val * 10 + d;
        assert(val as nat == digits_val(ds.take(t + 1)));
        t += 1;
    }
    assert(ds.take(k as int) =~= ds);
    Some((val, i + k))
}

/// Consumes a boolean literal at position `i`.
fn parse_bool_at(v: &Vec<char>, i: usize) -> (r: Option<(bool, usize)>)
    requires
        i <= v@.len(),
    ensures
        match r {
            Some(p) => i <= p.1 <= v@.len() && parse_bool(v@.skip(i as int)) == Some(
                (p.0, v@.skip(p.1 as int)),
            ),
            None => parse_bool(v@.skip(i as int)) is None,
        },
{
    match parse_lit_at(v, i, "true") {
        Some(j) => Some((true, j)),
        None => match parse_lit_at(v, i, "false") {
            Some(j) => Some((false, j)),
            None => None,
        },
    }
}

/// Consumes one record's block at position `i`.
fn parse_entry_at(v: &Vec<char>, i: usize) -> (r: Option<(DbEntry, usize)>)
    requires
        i <= v@.len(),
    ensures
        match r {
            Some(p) => i < p.1 <= v@.len() && parse_entry(v@.skip(i as int)) == Some(
                (p.0@, v@.skip(p.1 as int)),
            ),
            None => parse_entry(v@.skip(i as int)) is None,
        },
{
    proof {
        reveal_strlit("[[entries]]\nname = \"");
    }
    let s1 = match parse_lit_at(v, i, "[[entries]]\nname = \"") {
        Some(j) => j,
        None => {
            return None;
        },
    };
    let (name, s2) = match parse_qchars_at(v, s1) {
        Some(p) => p,
        None => {
            return None;
        },
    };
    let s3 = match parse_lit_at(v, s2, "\nlaunch_count = ") {
        Some(j) => j,
        None => {
            return None;
        },
    };
    let (count, s4) = match parse_number_at(v, s3) {
        Some(p) => p,
        None => {
            return None;
        },
    };
    let s5 = match parse_lit_at(v, s4, "\nblacklisted = ") {
        Some(j) => j,
        None => {
            return None;
        },
    };
    let (b, s6) = match parse_bool_at(v, s5) {
        Some(p) => p,
        None => {
            return None;
        },
    };
    let s7 = match parse_lit_at(v, s6, "\n") {
        Some(j) => j,
        None => {
            return None;
        },
    };
    let e = DbEntry { name, launch_count: count, blacklisted: b };
    Some((e, s7))
}

/// The whole-store reading seen from partway through: the records
/// already read, followed by what the rest of the text yields.
pub open spec fn store_ctx(prefix: Seq<DbEntryV>, s: Seq<char>) -> Option<Seq<DbEntryV>> {
    match parse_store(s) {
        Some(es) => Some(prefix + es),
        None => None,
    }
}

/// Reads a whole store text.
fn parse_store_chars(v: &Vec<char>) -> (r: Option<Vec<DbEntry>>)
    ensures
        match r {
            Some(es) => parse_store(v@) == Some(entry_views(es@)),
            None => parse_store(v@) is None,
        },
{
    let n = v.len();
    let mut out: Vec<DbEntry> = Vec::new();
    let mut p: usize = 0;
    proof {
        assert(v@.skip(0) =~= v@);
        assert(entry_views(out@) =~= Seq::<DbEntryV>::empty());
    }
    while p < n
        invariant
            n == v@.len(),
            p <= n,
            parse_store(v@) == store_ctx(entry_views(out@), v@.skip(p as int)),
        decreases n - p,
    {
        let ghost rem = v@.skip(p as int);
        let (e, j) = match parse_entry_at(v, p) {
            Some(q) => q,
            None => {
                return None;
            },
        };
        proof {
            assert(v@.skip(j as int).len() < rem.len());
        }
        let ghost prefix = entry_views(out@);
        out.push(e);
        proof {
            assert(entry_views(out@) =~= prefix.push(e@));
            if parse_store(v@.skip(j as int)) is Some {
                let ts = parse_store(v@.skip(j as int))->Some_0;
                assert(prefix + (seq![e@] + ts) =~= prefix.push(e@) + ts);
            }
            assert(store_ctx(prefix, rem) == store_ctx(entry_views(out@), v@.skip(j as int)));
        }
        p = j;
    }
    proof {
        assert(v@.skip(p as int).len() == 0);
        assert(parse_store(v@.skip(p as int)) == Some(Seq::<DbEntryV>::empty()));
        assert(entry_views(out@) + Seq::<DbEntryV>::empty() =~= entry_views(out@));
    }
    Some(out)
}

impl Db {
    /// The store a saved text stands for; any text that is not a wholly
    /// well-formed store falls back to the empty store.
    pub fn from_store_str(s: &str) -> (r: Db)
        ensures
            r@ == match parse_store(s@) {
                Some(es) => es,
                None => Seq::<DbEntryV>::empty(),
            },
    {
        let v = crate::strutil::str_to_chars(s);
        match parse_store_chars(&v) {
            Some(entries) => Db { entries },
            None => Db::empty(),
        }
    }
}

} // verus!
