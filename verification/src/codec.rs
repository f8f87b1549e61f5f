//! The artifact text format: JSON-shaped encoders for the ledger's two
//! persisted artifacts and the parsers that read them back.  The encoding
//! is canonical (no whitespace, fields in a fixed order); the parsers
//! accept exactly that shape and reject everything else, and reading an
//! encoded artifact back is proved to restore the encoded value.

use vstd::prelude::*;

use crate::ledger::TateredMessage;
use crate::text::{dec_digits, dec_value, digit_val, is_digit};

verus! {

// ---------------------------------------------------------------- encoding
/// How one character is written inside a quoted string: quotes and
/// backslashes take an escape, everything else stands for itself.
pub open spec fn esc_char(c: char) -> Seq<char> {
    if c == '"' || c == '\\' {
        seq!['\\', c]
    } else {
        seq![c]
    }
}

/// A string's characters, escaped.
pub open spec fn esc_chars(s: Seq<char>) -> Seq<char>
    decreases s.len(),
{
    if s.len() == 0 {
        Seq::<char>::empty()
    } else {
        esc_char(s[0]) + esc_chars(s.drop_first())
    }
}

/// A quoted string.
pub open spec fn enc_str(s: Seq<char>) -> Seq<char> {
    seq!['"'] + esc_chars(s) + seq!['"']
}

/// An optional number: `null` when absent.
pub open spec fn enc_opt_u64(o: Option<u64>) -> Seq<char> {
    match o {
        Some(v) => dec_digits(v as nat),
        None => "null"@,
    }
}

/// Comma-separated numbers.
pub open spec fn enc_u64_items(s: Seq<u64>) -> Seq<char>
    decreases s.len(),
{
    if s.len() == 0 {
        Seq::<char>::empty()
    } else if s.len() == 1 {
        dec_digits(s[0] as nat)
    } else {
        dec_digits(s[0] as nat) + seq![','] + enc_u64_items(s.drop_first())
    }
}

/// A bracketed list of numbers.
pub open spec fn enc_u64_list(s: Seq<u64>) -> Seq<char> {
    seq!['['] + enc_u64_items(s) + seq![']']
}

/// Comma-separated quoted strings.
pub open spec fn enc_str_items(s: Seq<Seq<char>>) -> Seq<char>
    decreases s.len(),
{
    if s.len() == 0 {
        Seq::<char>::empty()
    } else if s.len() == 1 {
        enc_str(s[0])
    } else {
        enc_str(s[0]) + seq![','] + enc_str_items(s.drop_first())
    }
}

/// A bracketed list of quoted strings.
pub open spec fn enc_str_list(s: Seq<Seq<char>>) -> Seq<char> {
    seq!['['] + enc_str_items(s) + seq![']']
}

/// One counter binding: the key as a quoted number, then the count.
pub open spec fn enc_count_entry(p: (u64, u64)) -> Seq<char> {
    seq!['"'] + dec_digits(p.0 as nat) + "\":"@ + dec_digits(p.1 as nat)
}

/// Comma-separated counter bindings.
pub open spec fn enc_count_items(s: Seq<(u64, u64)>) -> Seq<char>
    decreases s.len(),
{
    if s.len() == 0 {
        Seq::<char>::empty()
    } else if s.len() == 1 {
        enc_count_entry(s[0])
    } else {
        enc_count_entry(s[0]) + seq![','] + enc_count_items(s.drop_first())
    }
}

/// A counter map object.
pub open spec fn enc_count_map(s: Seq<(u64, u64)>) -> Seq<char> {
    seq!['{'] + enc_count_items(s) + seq!['}']
}

/// One cached message's state object.
pub open spec fn enc_msg(tm: TateredMessage) -> Seq<char> {
    "{\"sender\":"@ + dec_digits(tm.sender as nat) + ",\"count\":"@ + dec_digits(tm.count as nat)
        + ",\"pin_id\":"@ + enc_opt_u64(tm.pin_id) + "}"@
}

/// One cached message binding: the key as a quoted number, then the state.
pub open spec fn enc_msg_entry(p: (u64, TateredMessage)) -> Seq<char> {
    seq!['"'] + dec_digits(p.0 as nat) + "\":"@ + enc_msg(p.1)
}

/// Comma-separated cached message bindings.
pub open spec fn enc_msg_items(s: Seq<(u64, TateredMessage)>) -> Seq<char>
    decreases s.len(),
{
    if s.len() == 0 {
        Seq::<char>::empty()
    } else if s.len() == 1 {
        enc_msg_entry(s[0])
    } else {
        enc_msg_entry(s[0]) + seq![','] + enc_msg_items(s.drop_first())
    }
}

/// The cached message map object.
pub open spec fn enc_msg_map(s: Seq<(u64, TateredMessage)>) -> Seq<char> {
    seq!['{'] + enc_msg_items(s) + seq!['}']
}

/// Escaping one more character appends its escape.
pub proof fn lemma_esc_chars_push(s: Seq<char>, c: char)
    ensures
        esc_chars(s.push(c)) == esc_chars(s) + esc_char(c),
    decreases s.len(),
{
    assert(esc_chars(s.push(c)) == esc_char(s.push(c)[0]) + esc_chars(s.push(c).drop_first()));
    if s.len() == 0 {
        assert(s.push(c)[0] == c);
        assert(s.push(c).drop_first() =~= Seq::<char>::empty());
        assert(esc_chars(Seq::<char>::empty()) == Seq::<char>::empty());
        assert(esc_chars(s) == Seq::<char>::empty());
        assert(esc_chars(s.push(c)) =~= esc_chars(s) + esc_char(c));
    } else {
        assert(s.push(c)[0] == s[0]);
        assert(s.push(c).drop_first() =~= s.drop_first().push(c));
        lemma_esc_chars_push(s.drop_first(), c);
        assert(esc_chars(s) == esc_char(s[0]) + esc_chars(s.drop_first()));
        assert(esc_chars(s.push(c)) =~= esc_chars(s) + esc_char(c));
    }
}

/// Encoding one more number appends a comma and its digits.
pub proof fn lemma_enc_u64_items_push(s: Seq<u64>, v: u64)
    requires
        s.len() >= 1,
    ensures
        enc_u64_items(s.push(v)) == enc_u64_items(s) + seq![','] + dec_digits(v as nat),
    decreases s.len(),
{
    assert(s.push(v)[0] == s[0]);
    assert(enc_u64_items(s.push(v)) == dec_digits(s[0] as nat) + seq![','] + enc_u64_items(s.push(v).drop_first()));
    if s.len() == 1 {
        assert(s.push(v).drop_first() =~= seq![v]);
        assert(enc_u64_items(seq![v]) == dec_digits(v as nat));
        assert(enc_u64_items(s) == dec_digits(s[0] as nat));
        assert(enc_u64_items(s.push(v)) =~= enc_u64_items(s) + seq![','] + dec_digits(v as nat));
    } else {
        assert(s.push(v).drop_first() =~= s.drop_first().push(v));
        lemma_enc_u64_items_push(s.drop_first(), v);
        assert(enc_u64_items(s) == dec_digits(s[0] as nat) + seq![','] + enc_u64_items(s.drop_first()));
        assert(enc_u64_items(s.push(v)) =~= enc_u64_items(s) + seq![','] + dec_digits(v as nat));
    }
}

/// Encoding one more string appends a comma and its quoted form.
pub proof fn lemma_enc_str_items_push(s: Seq<Seq<char>>, v: Seq<char>)
    requires
        s.len() >= 1,
    ensures
        enc_str_items(s.push(v)) == enc_str_items(s) + seq![','] + enc_str(v),
    decreases s.len(),
{
    assert(s.push(v)[0] == s[0]);
    assert(enc_str_items(s.push(v)) == enc_str(s[0]) + seq![','] + enc_str_items(s.push(v).drop_first()));
    if s.len() == 1 {
        assert(s.push(v).drop_first() =~= seq![v]);
        assert(enc_str_items(seq![v]) == enc_str(v));
        assert(enc_str_items(s) == enc_str(s[0]));
        assert(enc_str_items(s.push(v)) =~= enc_str_items(s) + seq![','] + enc_str(v));
    } else {
        assert(s.push(v).drop_first() =~= s.drop_first().push(v));
        lemma_enc_str_items_push(s.drop_first(), v);
        assert(enc_str_items(s) == enc_str(s[0]) + seq![','] + enc_str_items(s.drop_first()));
        assert(enc_str_items(s.push(v)) =~= enc_str_items(s) + seq![','] + enc_str(v));
    }
}

/// Encoding one more counter binding appends a comma and its entry.
pub proof fn lemma_enc_count_items_push(s: Seq<(u64, u64)>, p: (u64, u64))
    requires
        s.len() >= 1,
    ensures
        enc_count_items(s.push(p)) == enc_count_items(s) + seq![','] + enc_count_entry(p),
    decreases s.len(),
{
    assert(s.push(p)[0] == s[0]);
    assert(enc_count_items(s.push(p)) == enc_count_entry(s[0]) + seq![','] + enc_count_items(s.push(p).drop_first()));
    if s.len() == 1 {
        assert(s.push(p).drop_first() =~= seq![p]);
        assert(enc_count_items(seq![p]) == enc_count_entry(p));
        assert(enc_count_items(s) == enc_count_entry(s[0]));
        assert(enc_count_items(s.push(p)) =~= enc_count_items(s) + seq![','] + enc_count_entry(p));
    } else {
        assert(s.push(p).drop_first() =~= s.drop_first().push(p));
        lemma_enc_count_items_push(s.drop_first(), p);
        assert(enc_count_items(s) == enc_count_entry(s[0]) + seq![','] + enc_count_items(s.drop_first()));
        assert(enc_count_items(s.push(p)) =~= enc_count_items(s) + seq![','] + enc_count_entry(p));
    }
}

/// Encoding one more message binding appends a comma and its entry.
pub proof fn lemma_enc_msg_items_push(s: Seq<(u64, TateredMessage)>, p: (u64, TateredMessage))
    requires
        s.len() >= 1,
    ensures
        enc_msg_items(s.push(p)) == enc_msg_items(s) + seq![','] + enc_msg_entry(p),
    decreases s.len(),
{
    assert(s.push(p)[0] == s[0]);
    assert(enc_msg_items(s.push(p)) == enc_msg_entry(s[0]) + seq![','] + enc_msg_items(s.push(p).drop_first()));
    if s.len() == 1 {
        assert(s.push(p).drop_first() =~= seq![p]);
        assert(enc_msg_items(seq![p]) == enc_msg_entry(p));
        assert(enc_msg_items(s) == enc_msg_entry(s[0]));
        assert(enc_msg_items(s.push(p)) =~= enc_msg_items(s) + seq![','] + enc_msg_entry(p));
    } else {
        assert(s.push(p).drop_first() =~= s.drop_first().push(p));
        lemma_enc_msg_items_push(s.drop_first(), p);
        assert(enc_msg_items(s) == enc_msg_entry(s[0]) + seq![','] + enc_msg_items(s.drop_first()));
        assert(enc_msg_items(s.push(p)) =~= enc_msg_items(s) + seq![','] + enc_msg_entry(p));
    }
}

// ----------------------------------------------------------------- parsing
/// First position at or after `i` that does not hold a digit.
pub open spec fn digit_run_end(s: Seq<char>, i: int) -> int
    decreases s.len() - i,
{
    if 0 <= i < s.len() && is_digit(s[i]) {
        digit_run_end(s, i + 1)
    } else {
        i
    }
}

/// Where a digit run ends: within bounds, after digits only, at a
/// non-digit or the end.
pub proof fn lemma_digit_run_end(s: Seq<char>, i: int)
    requires
        0 <= i <= s.len(),
    ensures
        i <= digit_run_end(s, i) <= s.len(),
        forall|j: int| i <= j < digit_run_end(s, i) ==> is_digit(#[trigger] s[j]),
        digit_run_end(s, i) == s.len() || !is_digit(s[digit_run_end(s, i)]),
    decreases s.len() - i,
{
    if i < s.len() && is_digit(s[i]) {
        lemma_digit_run_end(s, i + 1);
    }
}

/// A digit run reaches at least as far as the digits are known to go.
pub proof fn lemma_run_end_at_least(s: Seq<char>, i: int, m: int)
    requires
        0 <= i <= m <= s.len(),
        forall|j: int| i <= j < m ==> is_digit(#[trigger] s[j]),
    ensures
        digit_run_end(s, i) >= m,
    decreases m - i,
{
    lemma_digit_run_end(s, i);
    if i < m {
        assert(is_digit(s[i]));
        lemma_run_end_at_least(s, i + 1, m);
    }
}

/// A number at `i`: the longest digit run, which must fit the machine
/// word.
pub open spec fn sp_parse_u64(s: Seq<char>, i: int) -> Option<(u64, int)> {
    if 0 <= i < s.len() && is_digit(s[i]) {
        let e = digit_run_end(s, i);
        let v = dec_value(s.subrange(i, e));
        if v <= u64::MAX {
            Some((v as u64, e))
        } else {
            None
        }
    } else {
        None
    }
}

/// A parsed number sits strictly ahead of where it began.
pub proof fn lemma_sp_parse_u64_advances(s: Seq<char>, i: int)
    ensures
        sp_parse_u64(s, i) is Some ==> i < sp_parse_u64(s, i)->Some_0.1 <= s.len(),
{
    if 0 <= i < s.len() && is_digit(s[i]) {
        lemma_digit_run_end(s, i);
        assert(digit_run_end(s, i) == digit_run_end(s, i + 1));
        lemma_digit_run_end(s, i + 1);
    }
}

/// A quoted string's body from `i` on: characters up to the closing
/// quote, honouring the two escapes.
pub open spec fn sp_parse_str_body(s: Seq<char>, i: int) -> Option<(Seq<char>, int)>
    decreases s.len() - i,
{
    if !(0 <= i < s.len()) {
        None
    } else if s[i] == '"' {
        Some((Seq::<char>::empty(), i + 1))
    } else if s[i] == '\\' {
        if i + 1 < s.len() && (s[i + 1] == '"' || s[i + 1] == '\\') {
            match sp_parse_str_body(s, i + 2) {
                Some((t, e)) => Some((seq![s[i + 1]] + t, e)),
                None => None,
            }
        } else {
            None
        }
    } else {
        match sp_parse_str_body(s, i + 1) {
            Some((t, e)) => Some((seq![s[i]] + t, e)),
            None => None,
        }
    }
}

/// A parsed string body ends strictly ahead of where it began.
pub proof fn lemma_sp_parse_str_body_advances(s: Seq<char>, i: int)
    ensures
        sp_parse_str_body(s, i) is Some ==> i < sp_parse_str_body(s, i)->Some_0.1 <= s.len(),
    decreases s.len() - i,
{
    if 0 <= i < s.len() {
        if s[i] == '"' {
        } else if s[i] == '\\' {
            if i + 1 < s.len() && (s[i + 1] == '"' || s[i + 1] == '\\') {
                lemma_sp_parse_str_body_advances(s, i + 2);
            }
        } else {
            lemma_sp_parse_str_body_advances(s, i + 1);
        }
    }
}

/// A quoted string at `i`.
pub open spec fn sp_parse_str(s: Seq<char>, i: int) -> Option<(Seq<char>, int)> {
    if 0 <= i < s.len() && s[i] == '"' {
        sp_parse_str_body(s, i + 1)
    } else {
        None
    }
}

/// An exact literal at `i`.
pub open spec fn sp_expect(s: Seq<char>, i: int, lit: Seq<char>) -> Option<int> {
    if 0 <= i && i + lit.len() <= s.len() && s.subrange(i, i + lit.len()) == lit {
        Some(i + lit.len())
    } else {
        None
    }
}

/// An optional number at `i`: `null` or digits.
pub open spec fn sp_parse_opt_u64(s: Seq<char>, i: int) -> Option<(Option<u64>, int)> {
    if 0 <= i < s.len() && s[i] == 'n' {
        match sp_expect(s, i, "null"@) {
            Some(e) => Some((None, e)),
            None => None,
        }
    } else {
        match sp_parse_u64(s, i) {
            Some((v, e)) => Some((Some(v), e)),
            None => None,
        }
    }
}

/// One or more comma-separated numbers from `i` on.
pub open spec fn sp_parse_u64_items(s: Seq<char>, i: int) -> Option<(Seq<u64>, int)>
    decreases s.len() - i,
        when 0 <= i
        via sp_parse_u64_items_dec
{
    match sp_parse_u64(s, i) {
        None => None,
        Some((v, e)) => if e < s.len() && s[e] == ',' {
            match sp_parse_u64_items(s, e + 1) {
                None => None,
                Some((vs, e2)) => Some((seq![v] + vs, e2)),
            }
        } else {
            Some((seq![v], e))
        },
    }
}

#[via_fn]
proof fn sp_parse_u64_items_dec(s: Seq<char>, i: int) {
    lemma_sp_parse_u64_advances(s, i);
}

/// A bracketed list of numbers at `i`.
pub open spec fn sp_parse_u64_list(s: Seq<char>, i: int) -> Option<(Seq<u64>, int)> {
    if 0 <= i < s.len() && s[i] == '[' {
        if i + 1 < s.len() && s[i + 1] == ']' {
            Some((Seq::<u64>::empty(), i + 2))
        } else {
            match sp_parse_u64_items(s, i + 1) {
                None => None,
                Some((vs, e)) => if e < s.len() && s[e] == ']' {
                    Some((vs, e + 1))
                } else {
                    None
                },
            }
        }
    } else {
        None
    }
}

/// One or more comma-separated quoted strings from `i` on.
pub open spec fn sp_parse_str_items(s: Seq<char>, i: int) -> Option<(Seq<Seq<char>>, int)>
    decreases s.len() - i,
        when 0 <= i
        via sp_parse_str_items_dec
{
    match sp_parse_str(s, i) {
        None => None,
        Some((v, e)) => if e < s.len() && s[e] == ',' {
            match sp_parse_str_items(s, e + 1) {
                None => None,
                Some((vs, e2)) => Some((seq![v] + vs, e2)),
            }
        } else {
            Some((seq![v], e))
        },
    }
}

#[via_fn]
proof fn sp_parse_str_items_dec(s: Seq<char>, i: int) {
    if 0 <= i < s.len() && s[i] == '"' {
        lemma_sp_parse_str_body_advances(s, i + 1);
    }
}

/// A bracketed list of quoted strings at `i`.
pub open spec fn sp_parse_str_list(s: Seq<char>, i: int) -> Option<(Seq<Seq<char>>, int)> {
    if 0 <= i < s.len() && s[i] == '[' {
        if i + 1 < s.len() && s[i + 1] == ']' {
            Some((Seq::<Seq<char>>::empty(), i + 2))
        } else {
            match sp_parse_str_items(s, i + 1) {
                None => None,
                Some((vs, e)) => if e < s.len() && s[e] == ']' {
                    Some((vs, e + 1))
                } else {
                    None
                },
            }
        }
    } else {
        None
    }
}

/// One counter binding at `i`: quoted numeric key, colon, count.
pub open spec fn sp_parse_count_entry(s: Seq<char>, i: int) -> Option<((u64, u64), int)> {
    if 0 <= i < s.len() && s[i] == '"' {
        match sp_parse_u64(s, i + 1) {
            None => None,
            Some((k, e)) => match sp_expect(s, e, "\":"@) {
                None => None,
                Some(e2) => match sp_parse_u64(s, e2) {
                    None => None,
                    Some((v, e3)) => Some(((k, v), e3)),
                },
            },
        }
    } else {
        None
    }
}

/// A parsed counter binding ends strictly ahead of where it began.
pub proof fn lemma_sp_parse_count_entry_advances(s: Seq<char>, i: int)
    ensures
        sp_parse_count_entry(s, i) is Some ==> i < sp_parse_count_entry(s, i)->Some_0.1 <= s.len(),
{
    if 0 <= i < s.len() && s[i] == '"' {
        lemma_sp_parse_u64_advances(s, i + 1);
        if sp_parse_u64(s, i + 1) is Some {
            let e = sp_parse_u64(s, i + 1)->Some_0.1;
            if sp_expect(s, e, "\":"@) is Some {
                reveal_strlit("\":");
                lemma_sp_parse_u64_advances(s, e + 2);
            }
        }
    }
}

/// One or more comma-separated counter bindings from `i` on.
pub open spec fn sp_parse_count_items(s: Seq<char>, i: int) -> Option<(Seq<(u64, u64)>, int)>
    decreases s.len() - i,
        when 0 <= i
        via sp_parse_count_items_dec
{
    match sp_parse_count_entry(s, i) {
        None => None,
        Some((p, e)) => if e < s.len() && s[e] == ',' {
            match sp_parse_count_items(s, e + 1) {
                None => None,
                Some((ps, e2)) => Some((seq![p] + ps, e2)),
            }
        } else {
            Some((seq![p], e))
        },
    }
}

#[via_fn]
proof fn sp_parse_count_items_dec(s: Seq<char>, i: int) {
    lemma_sp_parse_count_entry_advances(s, i);
}

/// A counter map object at `i`.
pub open spec fn sp_parse_count_map(s: Seq<char>, i: int) -> Option<(Seq<(u64, u64)>, int)> {
    if 0 <= i < s.len() && s[i] == '{' {
        if i + 1 < s.len() && s[i + 1] == '}' {
            Some((Seq::<(u64, u64)>::empty(), i + 2))
        } else {
            match sp_parse_count_items(s, i + 1) {
                None => None,
                Some((ps, e)) => if e < s.len() && s[e] == '}' {
                    Some((ps, e + 1))
                } else {
                    None
                },
            }
        }
    } else {
        None
    }
}

/// One cached message state object at `i`.
pub open spec fn sp_parse_msg(s: Seq<char>, i: int) -> Option<(TateredMessage, int)> {
    match sp_expect(s, i, "{\"sender\":"@) {
        None => None,
        Some(e) => match sp_parse_u64(s, e) {
            None => None,
            Some((sender, e2)) => match sp_expect(s, e2, ",\"count\":"@) {
                None => None,
                Some(e3) => match sp_parse_u64(s, e3) {
                    None => None,
                    Some((count, e4)) => match sp_expect(s, e4, ",\"pin_id\":"@) {
                        None => None,
                        Some(e5) => match sp_parse_opt_u64(s, e5) {
                            None => None,
                            Some((pin, e6)) => match sp_expect(s, e6, "}"@) {
                                None => None,
                                Some(e7) => Some(
                                    (TateredMessage { sender, count, pin_id: pin }, e7),
                                ),
                            },
                        },
                    },
                },
            },
        },
    }
}

/// One cached message binding at `i`: quoted numeric key, colon, state.
pub open spec fn sp_parse_msg_entry(s: Seq<char>, i: int) -> Option<((u64, TateredMessage), int)> {
    if 0 <= i < s.len() && s[i] == '"' {
        match sp_parse_u64(s, i + 1) {
            None => None,
            Some((k, e)) => match sp_expect(s, e, "\":"@) {
                None => None,
                Some(e2) => match sp_parse_msg(s, e2) {
                    None => None,
                    Some((tm, e3)) => Some(((k, tm), e3)),
                },
            },
        }
    } else {
        None
    }
}

/// A parsed message binding ends strictly ahead of where it began.
pub proof fn lemma_sp_parse_msg_entry_advances(s: Seq<char>, i: int)
    ensures
        sp_parse_msg_entry(s, i) is Some ==> i < sp_parse_msg_entry(s, i)->Some_0.1 <= s.len(),
{
    if 0 <= i < s.len() && s[i] == '"' {
        lemma_sp_parse_u64_advances(s, i + 1);
        if sp_parse_u64(s, i + 1) is Some {
            let e = sp_parse_u64(s, i + 1)->Some_0.1;
            if sp_expect(s, e, "\":"@) is Some {
                reveal_strlit("\":");
                lemma_sp_parse_msg_advances(s, e + 2);
            }
        }
    }
}

/// A parsed message state ends within bounds.
pub proof fn lemma_sp_parse_msg_advances(s: Seq<char>, i: int)
    ensures
        sp_parse_msg(s, i) is Some ==> i < sp_parse_msg(s, i)->Some_0.1 <= s.len(),
{
    reveal_strlit("{\"sender\":");
    reveal_strlit(",\"count\":");
    reveal_strlit(",\"pin_id\":");
    reveal_strlit("}");
    reveal_strlit("null");
    if sp_expect(s, i, "{\"sender\":"@) is Some {
        let e = sp_expect(s, i, "{\"sender\":"@)->Some_0;
        lemma_sp_parse_u64_advances(s, e);
        if sp_parse_u64(s, e) is Some {
            let e2 = sp_parse_u64(s, e)->Some_0.1;
            if sp_expect(s, e2, ",\"count\":"@) is Some {
                let e3 = sp_expect(s, e2, ",\"count\":"@)->Some_0;
                lemma_sp_parse_u64_advances(s, e3);
                if sp_parse_u64(s, e3) is Some {
                    let e4 = sp_parse_u64(s, e3)->Some_0.1;
                    if sp_expect(s, e4, ",\"pin_id\":"@) is Some {
                        let e5 = sp_expect(s, e4, ",\"pin_id\":"@)->Some_0;
                        lemma_sp_parse_u64_advances(s, e5);
                    }
                }
            }
        }
    }
}

/// One or more comma-separated message bindings from `i` on.
pub open spec fn sp_parse_msg_items(s: Seq<char>, i: int) -> Option<(
    Seq<(u64, TateredMessage)>,
    int,
)>
    decreases s.len() - i,
        when 0 <= i
        via sp_parse_msg_items_dec
{
    match sp_parse_msg_entry(s, i) {
        None => None,
        Some((p, e)) => if e < s.len() && s[e] == ',' {
            match sp_parse_msg_items(s, e + 1) {
                None => None,
                Some((ps, e2)) => Some((seq![p] + ps, e2)),
            }
        } else {
            Some((seq![p], e))
        },
    }
}

#[via_fn]
proof fn sp_parse_msg_items_dec(s: Seq<char>, i: int) {
    lemma_sp_parse_msg_entry_advances(s, i);
}

// --------------------------------------------------------------- inversion
/// A run known to hold digits up to a non-digit ends exactly there.
proof fn lemma_run_end_of(s: Seq<char>, i: int, e: int)
    requires
        0 <= i <= e <= s.len(),
        forall|j: int| i <= j < e ==> is_digit(#[trigger] s[j]),
        e == s.len() || !is_digit(s[e]),
    ensures
        digit_run_end(s, i) == e,
    decreases e - i,
{
    if i < e {
        lemma_run_end_of(s, i + 1, e);
    }
}

/// Reading a number back: where the text holds a decimal rendering
/// followed by a non-digit (or the end), the parser returns the rendered
/// number.
pub proof fn lemma_inv_u64(s: Seq<char>, i: int, n: u64)
    requires
        0 <= i,
        i + dec_digits(n as nat).len() <= s.len(),
        s.subrange(i, i + dec_digits(n as nat).len()) == dec_digits(n as nat),
        i + dec_digits(n as nat).len() == s.len() || !is_digit(
            s[i + dec_digits(n as nat).len()],
        ),
    ensures
        sp_parse_u64(s, i) == Some((n, i + dec_digits(n as nat).len())),
{
    let ds = dec_digits(n as nat);
    crate::text::lemma_dec_digits_are_digits(n as nat);
    assert forall|j: int| i <= j < i + ds.len() implies is_digit(#[trigger] s[j]) by {
        assert(s[j] == ds[j - i]);
    }
    lemma_run_end_of(s, i, i + ds.len());
    crate::text::lemma_dec_value_of_digits(n as nat);
    assert(s[i] == ds[0]);
}

/// Reading an optional number back.
pub proof fn lemma_inv_opt_u64(s: Seq<char>, i: int, o: Option<u64>)
    requires
        0 <= i,
        i + enc_opt_u64(o).len() <= s.len(),
        s.subrange(i, i + enc_opt_u64(o).len()) == enc_opt_u64(o),
        i + enc_opt_u64(o).len() == s.len() || !is_digit(s[i + enc_opt_u64(o).len()]),
    ensures
        sp_parse_opt_u64(s, i) == Some((o, i + enc_opt_u64(o).len())),
{
    reveal_strlit("null");
    match o {
        None => {
            assert(s[i] == "null"@[0]);
            assert(s[i] == 'n');
        },
        Some(v) => {
            let ds = dec_digits(v as nat);
            crate::text::lemma_dec_digits_are_digits(v as nat);
            assert(s[i] == ds[0]);
            assert(is_digit(s[i]));
            assert(s[i] != 'n');
            lemma_inv_u64(s, i, v);
        },
    }
}

/// Reading a literal back.
pub proof fn lemma_inv_expect(s: Seq<char>, i: int, lit: Seq<char>)
    requires
        0 <= i,
        i + lit.len() <= s.len(),
        s.subrange(i, i + lit.len()) == lit,
    ensures
        sp_expect(s, i, lit) == Some(i + lit.len()),
{
}

/// Reading a quoted string's body back: the escaped characters followed
/// by the closing quote parse to the original characters.
proof fn lemma_inv_str_body(s: Seq<char>, i: int, v: Seq<char>)
    requires
        0 <= i,
        i + esc_chars(v).len() + 1 <= s.len(),
        s.subrange(i, i + esc_chars(v).len() + 1) == esc_chars(v) + seq!['"'],
    ensures
        sp_parse_str_body(s, i) == Some((v, i + esc_chars(v).len() + 1)),
    decreases v.len(),
{
    let w = esc_chars(v) + seq!['"'];
    if v.len() == 0 {
        assert(s[i] == w[0]);
        assert(s[i] == '"');
    } else {
        let c = v[0];
        let rest = v.drop_first();
        assert(esc_chars(v) == esc_char(c) + esc_chars(rest));
        let shift = esc_char(c).len();
        assert(s.subrange(i + shift, i + esc_chars(v).len() + 1) =~= esc_chars(rest)
            + seq!['"']) by {
            assert forall|j: int| 0 <= j < esc_chars(rest).len() + 1 implies s.subrange(
                i + shift,
                i + esc_chars(v).len() + 1,
            )[j] == (esc_chars(rest) + seq!['"'])[j] by {
                assert(s[i + shift + j] == w[shift + j]);
            }
        }
        lemma_inv_str_body(s, i + shift, rest);
        if c == '"' || c == '\\' {
            assert(s[i] == w[0]);
            assert(s[i + 1] == w[1]);
            assert(s[i] == '\\');
            assert(s[i + 1] == c);
            assert(seq![s[i + 1]] + rest =~= v);
        } else {
            assert(s[i] == w[0]);
            assert(s[i] == c);
            assert(seq![s[i]] + rest =~= v);
        }
    }
}

/// Reading a quoted string back.
pub proof fn lemma_inv_str(s: Seq<char>, i: int, v: Seq<char>)
    requires
        0 <= i,
        i + enc_str(v).len() <= s.len(),
        s.subrange(i, i + enc_str(v).len()) == enc_str(v),
    ensures
        sp_parse_str(s, i) == Some((v, i + enc_str(v).len())),
{
    let w = enc_str(v);
    assert(s[i] == w[0]);
    assert(s[i] == '"');
    assert(s.subrange(i + 1, i + w.len()) =~= esc_chars(v) + seq!['"']) by {
        assert forall|j: int| 0 <= j < w.len() - 1 implies s.subrange(i + 1, i + w.len())[j] == (
        esc_chars(v) + seq!['"'])[j] by {
            assert(s[i + 1 + j] == w[1 + j]);
            assert(w[1 + j] == (esc_chars(v) + seq!['"'])[j]);
        }
    }
    lemma_inv_str_body(s, i + 1, v);
}

/// A window known to hold a concatenation splits into its two parts.
proof fn lemma_sub_split(s: Seq<char>, i: int, a: Seq<char>, b: Seq<char>)
    requires
        0 <= i,
        i + a.len() + b.len() <= s.len(),
        s.subrange(i, i + a.len() + b.len()) == a + b,
    ensures
        s.subrange(i, i + a.len()) == a,
        s.subrange(i + a.len(), i + a.len() + b.len()) == b,
{
    let w = a + b;
    assert(s.subrange(i, i + a.len()) =~= a) by {
        assert forall|j: int| 0 <= j < a.len() implies s.subrange(i, i + a.len())[j] == a[j] by {
            assert(s[i + j] == w[j]);
        }
    }
    assert(s.subrange(i + a.len(), i + a.len() + b.len()) =~= b) by {
        assert forall|j: int| 0 <= j < b.len() implies s.subrange(
            i + a.len(),
            i + a.len() + b.len(),
        )[j] == b[j] by {
            assert(s[i + a.len() + j] == w[a.len() + j]);
        }
    }
}

/// Reading a number item run back.
pub proof fn lemma_inv_u64_items(s: Seq<char>, i: int, vs: Seq<u64>)
    requires
        vs.len() >= 1,
        0 <= i,
        i + enc_u64_items(vs).len() <= s.len(),
        s.subrange(i, i + enc_u64_items(vs).len()) == enc_u64_items(vs),
        i + enc_u64_items(vs).len() == s.len() || (s[i + enc_u64_items(vs).len()] != ','
            && !is_digit(s[i + enc_u64_items(vs).len()])),
    ensures
        sp_parse_u64_items(s, i) == Some((vs, i + enc_u64_items(vs).len())),
    decreases vs.len(),
{
    let n = enc_u64_items(vs).len();
    let d = dec_digits(vs[0] as nat);
    if vs.len() == 1 {
        lemma_inv_u64(s, i, vs[0]);
        assert(seq![vs[0]] =~= vs);
    } else {
        let rest = vs.drop_first();
        assert(enc_u64_items(vs) == d + seq![','] + enc_u64_items(rest));
        assert(enc_u64_items(vs) =~= (d + seq![',']) + enc_u64_items(rest));
        lemma_sub_split(s, i, d + seq![','], enc_u64_items(rest));
        lemma_sub_split(s, i, d, seq![',']);
        assert(s.subrange(i + d.len(), i + d.len() + 1)[0] == s[i + d.len()]);
        assert(s[i + d.len()] == ',');
        lemma_inv_u64(s, i, vs[0]);
        lemma_inv_u64_items(s, i + d.len() + 1, rest);
        assert(seq![vs[0]] + rest =~= vs);
    }
}

/// Reading a number list back.
pub proof fn lemma_inv_u64_list(s: Seq<char>, i: int, vs: Seq<u64>)
    requires
        0 <= i,
        i + enc_u64_list(vs).len() <= s.len(),
        s.subrange(i, i + enc_u64_list(vs).len()) == enc_u64_list(vs),
    ensures
        sp_parse_u64_list(s, i) == Some((vs, i + enc_u64_list(vs).len())),
{
    let w = enc_u64_list(vs);
    assert(s[i] == w[0]);
    assert(s[i] == '[');
    assert(w =~= (seq!['[']) + (enc_u64_items(vs) + seq![']']));
    lemma_sub_split(s, i, seq!['['], enc_u64_items(vs) + seq![']']);
    lemma_sub_split(s, i + 1, enc_u64_items(vs), seq![']']);
    assert(s.subrange(i + 1 + enc_u64_items(vs).len(), i + 1 + enc_u64_items(vs).len() + 1)[0]
        == s[i + 1 + enc_u64_items(vs).len()]);
    assert(s[i + 1 + enc_u64_items(vs).len()] == ']');
    if vs.len() == 0 {
        assert(s[i + 1] == ']');
    } else {
        let d = dec_digits(vs[0] as nat);
        crate::text::lemma_dec_digits_are_digits(vs[0] as nat);
        assert(s.subrange(i + 1, i + 1 + enc_u64_items(vs).len())[0] == enc_u64_items(vs)[0]);
        assert(enc_u64_items(vs)[0] == d[0]);
        assert(is_digit(s[i + 1]));
        assert(s[i + 1] != ']');
        lemma_inv_u64_items(s, i + 1, vs);
    }
}

/// Reading a string item run back.
pub proof fn lemma_inv_str_items(s: Seq<char>, i: int, vs: Seq<Seq<char>>)
    requires
        vs.len() >= 1,
        0 <= i,
        i + enc_str_items(vs).len() <= s.len(),
        s.subrange(i, i + enc_str_items(vs).len()) == enc_str_items(vs),
        i + enc_str_items(vs).len() == s.len() || s[i + enc_str_items(vs).len()] != ',',
    ensures
        sp_parse_str_items(s, i) == Some((vs, i + enc_str_items(vs).len())),
    decreases vs.len(),
{
    let n = enc_str_items(vs).len();
    let d = enc_str(vs[0]);
    if vs.len() == 1 {
        lemma_inv_str(s, i, vs[0]);
        assert(seq![vs[0]] =~= vs);
    } else {
        let rest = vs.drop_first();
        assert(enc_str_items(vs) == d + seq![','] + enc_str_items(rest));
        assert(enc_str_items(vs) =~= (d + seq![',']) + enc_str_items(rest));
        lemma_sub_split(s, i, d + seq![','], enc_str_items(rest));
        lemma_sub_split(s, i, d, seq![',']);
        assert(s.subrange(i + d.len(), i + d.len() + 1)[0] == s[i + d.len()]);
        assert(s[i + d.len()] == ',');
        lemma_inv_str(s, i, vs[0]);
        lemma_inv_str_items(s, i + d.len() + 1, rest);
        assert(seq![vs[0]] + rest =~= vs);
    }
}

/// Reading a string list back.
pub proof fn lemma_inv_str_list(s: Seq<char>, i: int, vs: Seq<Seq<char>>)
    requires
        0 <= i,
        i + enc_str_list(vs).len() <= s.len(),
        s.subrange(i, i + enc_str_list(vs).len()) == enc_str_list(vs),
    ensures
        sp_parse_str_list(s, i) == Some((vs, i + enc_str_list(vs).len())),
{
    let w = enc_str_list(vs);
    assert(s[i] == w[0]);
    assert(s[i] == '[');
    assert(w =~= (seq!['[']) + (enc_str_items(vs) + seq![']']));
    lemma_sub_split(s, i, seq!['['], enc_str_items(vs) + seq![']']);
    lemma_sub_split(s, i + 1, enc_str_items(vs), seq![']']);
    assert(s.subrange(i + 1 + enc_str_items(vs).len(), i + 1 + enc_str_items(vs).len() + 1)[0]
        == s[i + 1 + enc_str_items(vs).len()]);
    assert(s[i + 1 + enc_str_items(vs).len()] == ']');
    if vs.len() == 0 {
        assert(s[i + 1] == ']');
    } else {
        let d = enc_str(vs[0]);
        assert(s.subrange(i + 1, i + 1 + enc_str_items(vs).len())[0] == enc_str_items(vs)[0]);
        assert(enc_str_items(vs)[0] == d[0]);
        assert(s[i + 1] == '"');
        assert(s[i + 1] != ']');
        lemma_inv_str_items(s, i + 1, vs);
    }
}

/// A cached message map object at `i`.
pub open spec fn sp_parse_msg_map(s: Seq<char>, i: int) -> Option<(
    Seq<(u64, TateredMessage)>,
    int,
)> {
    if 0 <= i < s.len() && s[i] == '{' {
        if i + 1 < s.len() && s[i + 1] == '}' {
            Some((Seq::<(u64, TateredMessage)>::empty(), i + 2))
        } else {
            match sp_parse_msg_items(s, i + 1) {
                None => None,
                Some((ps, e)) => if e < s.len() && s[e] == '}' {
                    Some((ps, e + 1))
                } else {
                    None
                },
            }
        }
    } else {
        None
    }
}

/// Reading a counter binding back.
pub proof fn lemma_inv_count_entry(s: Seq<char>, i: int, p: (u64, u64))
    requires
        0 <= i,
        i + enc_count_entry(p).len() <= s.len(),
        s.subrange(i, i + enc_count_entry(p).len()) == enc_count_entry(p),
        i + enc_count_entry(p).len() == s.len() || !is_digit(s[i + enc_count_entry(p).len()]),
    ensures
        sp_parse_count_entry(s, i) == Some((p, i + enc_count_entry(p).len())),
{
    reveal_strlit("\":");
    let q = seq!['"'];
    let d0 = dec_digits(p.0 as nat);
    let lit = "\":"@;
    let d1 = dec_digits(p.1 as nat);
    let n = enc_count_entry(p).len();
    assert(enc_count_entry(p) =~= q + (d0 + (lit + d1)));
    lemma_sub_split(s, i, q, d0 + (lit + d1));
    lemma_sub_split(s, i + 1, d0, lit + d1);
    lemma_sub_split(s, i + 1 + d0.len(), lit, d1);
    assert(s.subrange(i, i + 1)[0] == s[i]);
    assert(s[i] == '"');
    assert(s.subrange(i + 1 + d0.len(), i + 1 + d0.len() + 2)[0] == s[i + 1 + d0.len()]);
    assert(s[i + 1 + d0.len()] == '"');
    lemma_inv_u64(s, i + 1, p.0);
    lemma_inv_expect(s, i + 1 + d0.len(), lit);
    lemma_inv_u64(s, i + 1 + d0.len() + 2, p.1);
}

/// Reading a counter binding run back.
pub proof fn lemma_inv_count_items(s: Seq<char>, i: int, ps: Seq<(u64, u64)>)
    requires
        ps.len() >= 1,
        0 <= i,
        i + enc_count_items(ps).len() <= s.len(),
        s.subrange(i, i + enc_count_items(ps).len()) == enc_count_items(ps),
        i + enc_count_items(ps).len() == s.len() || (s[i + enc_count_items(ps).len()] != ','
            && !is_digit(s[i + enc_count_items(ps).len()])),
    ensures
        sp_parse_count_items(s, i) == Some((ps, i + enc_count_items(ps).len())),
    decreases ps.len(),
{
    let d = enc_count_entry(ps[0]);
    if ps.len() == 1 {
        lemma_inv_count_entry(s, i, ps[0]);
        assert(seq![ps[0]] =~= ps);
    } else {
        let rest = ps.drop_first();
        assert(enc_count_items(ps) =~= (d + seq![',']) + enc_count_items(rest));
        lemma_sub_split(s, i, d + seq![','], enc_count_items(rest));
        lemma_sub_split(s, i, d, seq![',']);
        assert(s.subrange(i + d.len(), i + d.len() + 1)[0] == s[i + d.len()]);
        assert(s[i + d.len()] == ',');
        lemma_inv_count_entry(s, i, ps[0]);
        lemma_inv_count_items(s, i + d.len() + 1, rest);
        assert(seq![ps[0]] + rest =~= ps);
    }
}

/// Reading a counter map back.
pub proof fn lemma_inv_count_map(s: Seq<char>, i: int, ps: Seq<(u64, u64)>)
    requires
        0 <= i,
        i + enc_count_map(ps).len() <= s.len(),
        s.subrange(i, i + enc_count_map(ps).len()) == enc_count_map(ps),
    ensures
        sp_parse_count_map(s, i) == Some((ps, i + enc_count_map(ps).len())),
{
    let w = enc_count_map(ps);
    assert(s[i] == w[0]);
    assert(s[i] == '{');
    assert(w =~= (seq!['{']) + (enc_count_items(ps) + seq!['}']));
    lemma_sub_split(s, i, seq!['{'], enc_count_items(ps) + seq!['}']);
    lemma_sub_split(s, i + 1, enc_count_items(ps), seq!['}']);
    assert(s.subrange(i + 1 + enc_count_items(ps).len(), i + 1 + enc_count_items(ps).len() + 1)[0]
        == s[i + 1 + enc_count_items(ps).len()]);
    assert(s[i + 1 + enc_count_items(ps).len()] == '}');
    if ps.len() == 0 {
        assert(s.subrange(i + 1, i + 2)[0] == s[i + 1]);
        assert(s[i + 1] == '}');
    } else {
        assert(s.subrange(i + 1, i + 1 + enc_count_items(ps).len())[0] == enc_count_items(ps)[0]);
        assert(enc_count_items(ps)[0] == enc_count_entry(ps[0])[0]);
        assert(enc_count_entry(ps[0])[0] == '"');
        assert(s[i + 1] == '"');
        lemma_inv_count_items(s, i + 1, ps);
    }
}

/// Reading a cached message state back.
pub proof fn lemma_inv_msg(s: Seq<char>, i: int, tm: TateredMessage)
    requires
        0 <= i,
        i + enc_msg(tm).len() <= s.len(),
        s.subrange(i, i + enc_msg(tm).len()) == enc_msg(tm),
    ensures
        sp_parse_msg(s, i) == Some((tm, i + enc_msg(tm).len())),
{
    reveal_strlit("{\"sender\":");
    reveal_strlit(",\"count\":");
    reveal_strlit(",\"pin_id\":");
    reveal_strlit("}");
    reveal_strlit("null");
    let l1 = "{\"sender\":"@;
    let ds = dec_digits(tm.sender as nat);
    let l2 = ",\"count\":"@;
    let dc = dec_digits(tm.count as nat);
    let l3 = ",\"pin_id\":"@;
    let dp = enc_opt_u64(tm.pin_id);
    let l4 = "}"@;
    assert(enc_msg(tm) =~= l1 + (ds + (l2 + (dc + (l3 + (dp + l4))))));
    let p1 = i + l1.len();
    lemma_sub_split(s, i, l1, ds + (l2 + (dc + (l3 + (dp + l4)))));
    let p2 = p1 + ds.len();
    lemma_sub_split(s, p1, ds, l2 + (dc + (l3 + (dp + l4))));
    let p3 = p2 + l2.len();
    lemma_sub_split(s, p2, l2, dc + (l3 + (dp + l4)));
    let p4 = p3 + dc.len();
    lemma_sub_split(s, p3, dc, l3 + (dp + l4));
    let p5 = p4 + l3.len();
    lemma_sub_split(s, p4, l3, dp + l4);
    let p6 = p5 + dp.len();
    lemma_sub_split(s, p5, dp, l4);
    lemma_inv_expect(s, i, l1);
    assert(s.subrange(p2, p2 + l2.len())[0] == s[p2]);
    assert(s[p2] == ',');
    lemma_inv_u64(s, p1, tm.sender);
    lemma_inv_expect(s, p2, l2);
    assert(s.subrange(p4, p4 + l3.len())[0] == s[p4]);
    assert(s[p4] == ',');
    lemma_inv_u64(s, p3, tm.count);
    lemma_inv_expect(s, p4, l3);
    assert(s.subrange(p6, p6 + 1)[0] == s[p6]);
    assert(s[p6] == '}');
    lemma_inv_opt_u64(s, p5, tm.pin_id);
    lemma_inv_expect(s, p6, l4);
}

/// Reading a cached message binding back.
pub proof fn lemma_inv_msg_entry(s: Seq<char>, i: int, p: (u64, TateredMessage))
    requires
        0 <= i,
        i + enc_msg_entry(p).len() <= s.len(),
        s.subrange(i, i + enc_msg_entry(p).len()) == enc_msg_entry(p),
    ensures
        sp_parse_msg_entry(s, i) == Some((p, i + enc_msg_entry(p).len())),
{
    reveal_strlit("\":");
    let q = seq!['"'];
    let d0 = dec_digits(p.0 as nat);
    let lit = "\":"@;
    let body = enc_msg(p.1);
    assert(enc_msg_entry(p) =~= q + (d0 + (lit + body)));
    lemma_sub_split(s, i, q, d0 + (lit + body));
    lemma_sub_split(s, i + 1, d0, lit + body);
    lemma_sub_split(s, i + 1 + d0.len(), lit, body);
    assert(s.subrange(i, i + 1)[0] == s[i]);
    assert(s[i] == '"');
    assert(s.subrange(i + 1 + d0.len(), i + 1 + d0.len() + 2)[0] == s[i + 1 + d0.len()]);
    assert(s[i + 1 + d0.len()] == '"');
    lemma_inv_u64(s, i + 1, p.0);
    lemma_inv_expect(s, i + 1 + d0.len(), lit);
    lemma_inv_msg(s, i + 1 + d0.len() + 2, p.1);
}

/// Reading a cached message binding run back.
pub proof fn lemma_inv_msg_items(s: Seq<char>, i: int, ps: Seq<(u64, TateredMessage)>)
    requires
        ps.len() >= 1,
        0 <= i,
        i + enc_msg_items(ps).len() <= s.len(),
        s.subrange(i, i + enc_msg_items(ps).len()) == enc_msg_items(ps),
        i + enc_msg_items(ps).len() == s.len() || s[i + enc_msg_items(ps).len()] != ',',
    ensures
        sp_parse_msg_items(s, i) == Some((ps, i + enc_msg_items(ps).len())),
    decreases ps.len(),
{
    let d = enc_msg_entry(ps[0]);
    if ps.len() == 1 {
        lemma_inv_msg_entry(s, i, ps[0]);
        assert(seq![ps[0]] =~= ps);
    } else {
        let rest = ps.drop_first();
        assert(enc_msg_items(ps) =~= (d + seq![',']) + enc_msg_items(rest));
        lemma_sub_split(s, i, d + seq![','], enc_msg_items(rest));
        lemma_sub_split(s, i, d, seq![',']);
        assert(s.subrange(i + d.len(), i + d.len() + 1)[0] == s[i + d.len()]);
        assert(s[i + d.len()] == ',');
        lemma_inv_msg_entry(s, i, ps[0]);
        lemma_inv_msg_items(s, i + d.len() + 1, rest);
        assert(seq![ps[0]] + rest =~= ps);
    }
}

/// Reading a cached message map back.
pub proof fn lemma_inv_msg_map(s: Seq<char>, i: int, ps: Seq<(u64, TateredMessage)>)
    requires
        0 <= i,
        i + enc_msg_map(ps).len() <= s.len(),
        s.subrange(i, i + enc_msg_map(ps).len()) == enc_msg_map(ps),
    ensures
        sp_parse_msg_map(s, i) == Some((ps, i + enc_msg_map(ps).len())),
{
    let w = enc_msg_map(ps);
    assert(s[i] == w[0]);
    assert(s[i] == '{');
    assert(w =~= (seq!['{']) + (enc_msg_items(ps) + seq!['}']));
    lemma_sub_split(s, i, seq!['{'], enc_msg_items(ps) + seq!['}']);
    lemma_sub_split(s, i + 1, enc_msg_items(ps), seq!['}']);
    assert(s.subrange(i + 1 + enc_msg_items(ps).len(), i + 1 + enc_msg_items(ps).len() + 1)[0]
        == s[i + 1 + enc_msg_items(ps).len()]);
    assert(s[i + 1 + enc_msg_items(ps).len()] == '}');
    if ps.len() == 0 {
        assert(s.subrange(i + 1, i + 2)[0] == s[i + 1]);
        assert(s[i + 1] == '}');
    } else {
        assert(s.subrange(i + 1, i + 1 + enc_msg_items(ps).len())[0] == enc_msg_items(ps)[0]);
        assert(enc_msg_items(ps)[0] == enc_msg_entry(ps[0])[0]);
        assert(enc_msg_entry(ps[0])[0] == '"');
        assert(s[i + 1] == '"');
        lemma_inv_msg_items(s, i + 1, ps);
    }
}

/// The counters artifact: cached messages and both per-user counter maps.
pub open spec fn enc_counters(
    tm: Seq<(u64, TateredMessage)>,
    got: Seq<(u64, u64)>,
    given: Seq<(u64, u64)>,
) -> Seq<char> {
    "{\"tatered_messages\":"@ + enc_msg_map(tm) + ",\"taters_got\":"@ + enc_count_map(got)
        + ",\"taters_given\":"@ + enc_count_map(given) + "}"@
}

/// The counters artifact, read back.
pub open spec fn sp_parse_counters(s: Seq<char>, i: int) -> Option<(
    (Seq<(u64, TateredMessage)>, Seq<(u64, u64)>, Seq<(u64, u64)>),
    int,
)> {
    match sp_expect(s, i, "{\"tatered_messages\":"@) {
        None => None,
        Some(e) => match sp_parse_msg_map(s, e) {
            None => None,
            Some((tm, e2)) => match sp_expect(s, e2, ",\"taters_got\":"@) {
                None => None,
                Some(e3) => match sp_parse_count_map(s, e3) {
                    None => None,
                    Some((got, e4)) => match sp_expect(s, e4, ",\"taters_given\":"@) {
                        None => None,
                        Some(e5) => match sp_parse_count_map(s, e5) {
                            None => None,
                            Some((given, e6)) => match sp_expect(s, e6, "}"@) {
                                None => None,
                                Some(e7) => Some(((tm, got, given), e7)),
                            },
                        },
                    },
                },
            },
        },
    }
}

/// Reading the counters artifact back restores all three maps.
#[verifier::rlimit(100)]
pub proof fn lemma_inv_counters(
    s: Seq<char>,
    i: int,
    tm: Seq<(u64, TateredMessage)>,
    got: Seq<(u64, u64)>,
    given: Seq<(u64, u64)>,
)
    requires
        0 <= i,
        i + enc_counters(tm, got, given).len() <= s.len(),
        s.subrange(i, i + enc_counters(tm, got, given).len()) == enc_counters(tm, got, given),
    ensures
        sp_parse_counters(s, i) == Some(((tm, got, given), i + enc_counters(tm, got, given).len())),
{
    let l1 = "{\"tatered_messages\":"@;
    let m1 = enc_msg_map(tm);
    let l2 = ",\"taters_got\":"@;
    let m2 = enc_count_map(got);
    let l3 = ",\"taters_given\":"@;
    let m3 = enc_count_map(given);
    let l4 = "}"@;
    assert(enc_counters(tm, got, given) =~= l1 + (m1 + (l2 + (m2 + (l3 + (m3 + l4))))));
    let p1 = i + l1.len();
    lemma_sub_split(s, i, l1, m1 + (l2 + (m2 + (l3 + (m3 + l4)))));
    let p2 = p1 + m1.len();
    lemma_sub_split(s, p1, m1, l2 + (m2 + (l3 + (m3 + l4))));
    let p3 = p2 + l2.len();
    lemma_sub_split(s, p2, l2, m2 + (l3 + (m3 + l4)));
    let p4 = p3 + m2.len();
    lemma_sub_split(s, p3, m2, l3 + (m3 + l4));
    let p5 = p4 + l3.len();
    lemma_sub_split(s, p4, l3, m3 + l4);
    let p6 = p5 + m3.len();
    lemma_sub_split(s, p5, m3, l4);
    lemma_inv_expect(s, i, l1);
    lemma_inv_msg_map(s, p1, tm);
    lemma_inv_expect(s, p2, l2);
    lemma_inv_count_map(s, p3, got);
    lemma_inv_expect(s, p4, l3);
    lemma_inv_count_map(s, p5, given);
    lemma_inv_expect(s, p6, l4);
}

/// The configuration artifact.
pub open spec fn enc_config(cv: crate::ledger::ConfigView) -> Seq<char> {
    "{\"trigger_word\":"@ + enc_str(cv.trigger_word) + ",\"threshold\":"@ + dec_digits(
        cv.threshold as nat,
    ) + ",\"medals\":"@ + enc_str_list(cv.medals) + ",\"tater_emoji\":"@ + enc_str(cv.tater_emoji)
        + ",\"blacklisted_channels\":"@ + enc_u64_list(cv.blacklisted_channels)
        + ",\"pin_channel\":"@ + dec_digits(cv.pin_channel as nat) + ",\"admins\":"@ + enc_u64_list(
        cv.admins,
    ) + "}"@
}

/// The configuration artifact, read back.
pub open spec fn sp_parse_config(s: Seq<char>, i: int) -> Option<(
    crate::ledger::ConfigView,
    int,
)> {
    match sp_expect(s, i, "{\"trigger_word\":"@) {
        None => None,
        Some(e1) => match sp_parse_str(s, e1) {
            None => None,
            Some((trigger_word, e2)) => match sp_expect(s, e2, ",\"threshold\":"@) {
                None => None,
                Some(e3) => match sp_parse_u64(s, e3) {
                    None => None,
                    Some((threshold, e4)) => match sp_expect(s, e4, ",\"medals\":"@) {
                        None => None,
                        Some(e5) => match sp_parse_str_list(s, e5) {
                            None => None,
                            Some((medals, e6)) => match sp_expect(s, e6, ",\"tater_emoji\":"@) {
                                None => None,
                                Some(e7) => match sp_parse_str(s, e7) {
                                    None => None,
                                    Some((tater_emoji, e8)) => match sp_expect(
                                        s,
                                        e8,
                                        ",\"blacklisted_channels\":"@,
                                    ) {
                                        None => None,
                                        Some(e9) => match sp_parse_u64_list(s, e9) {
                                            None => None,
                                            Some((blacklisted_channels, e10)) => match sp_expect(
                                                s,
                                                e10,
                                                ",\"pin_channel\":"@,
                                            ) {
                                                None => None,
                                                Some(e11) => match sp_parse_u64(s, e11) {
                                                    None => None,
                                                    Some((pin_channel, e12)) => match sp_expect(
                                                        s,
                                                        e12,
                                                        ",\"admins\":"@,
                                                    ) {
                                                        None => None,
                                                        Some(e13) => match sp_parse_u64_list(
                                                            s,
                                                            e13,
                                                        ) {
                                                            None => None,
                                                            Some((admins, e14)) => match sp_expect(
                                                                s,
                                                                e14,
                                                                "}"@,
                                                            ) {
                                                                None => None,
                                                                Some(e15) => Some(
                                                                    (
                                                                        crate::ledger::ConfigView {
                                                                            trigger_word,
                                                                            threshold,
                                                                            medals,
                                                                            tater_emoji,
                                                                            blacklisted_channels,
                                                                            pin_channel,
                                                                            admins,
                                                                        },
                                                                        e15,
                                                                    ),
                                                                ),
                                                            },
                                                        },
                                                    },
                                                },
                                            },
                                        },
                                    },
                                },
                            },
                        },
                    },
                },
            },
        },
    }
}

/// Reading the configuration artifact back restores the configuration.
#[verifier::rlimit(100)]
pub proof fn lemma_inv_config(s: Seq<char>, i: int, cv: crate::ledger::ConfigView)
    requires
        0 <= i,
        i + enc_config(cv).len() <= s.len(),
        s.subrange(i, i + enc_config(cv).len()) == enc_config(cv),
    ensures
        sp_parse_config(s, i) == Some((cv, i + enc_config(cv).len())),
{
    reveal_strlit(",\"medals\":");
    reveal_strlit(",\"admins\":");
    let l1 = "{\"trigger_word\":"@;
    let f1 = enc_str(cv.trigger_word);
    let l2 = ",\"threshold\":"@;
    let f2 = dec_digits(cv.threshold as nat);
    let l3 = ",\"medals\":"@;
    let f3 = enc_str_list(cv.medals);
    let l4 = ",\"tater_emoji\":"@;
    let f4 = enc_str(cv.tater_emoji);
    let l5 = ",\"blacklisted_channels\":"@;
    let f5 = enc_u64_list(cv.blacklisted_channels);
    let l6 = ",\"pin_channel\":"@;
    let f6 = dec_digits(cv.pin_channel as nat);
    let l7 = ",\"admins\":"@;
    let f7 = enc_u64_list(cv.admins);
    let l8 = "}"@;
    assert(enc_config(cv) =~= l1 + (f1 + (l2 + (f2 + (l3 + (f3 + (l4 + (f4 + (l5 + (f5 + (l6 + (f6
        + (l7 + (f7 + l8))))))))))))));
    let p1 = i + l1.len();
    lemma_sub_split(
        s,
        i,
        l1,
        f1 + (l2 + (f2 + (l3 + (f3 + (l4 + (f4 + (l5 + (f5 + (l6 + (f6 + (l7 + (f7 + l8)))))))))))),
    );
    let p2 = p1 + f1.len();
    lemma_sub_split(
        s,
        p1,
        f1,
        l2 + (f2 + (l3 + (f3 + (l4 + (f4 + (l5 + (f5 + (l6 + (f6 + (l7 + (f7 + l8))))))))))),
    );
    let p3 = p2 + l2.len();
    lemma_sub_split(
        s,
        p2,
        l2,
        f2 + (l3 + (f3 + (l4 + (f4 + (l5 + (f5 + (l6 + (f6 + (l7 + (f7 + l8)))))))))),
    );
    let p4 = p3 + f2.len();
    lemma_sub_split(
        s,
        p3,
        f2,
        l3 + (f3 + (l4 + (f4 + (l5 + (f5 + (l6 + (f6 + (l7 + (f7 + l8))))))))),
    );
    let p5 = p4 + l3.len();
    lemma_sub_split(s, p4, l3, f3 + (l4 + (f4 + (l5 + (f5 + (l6 + (f6 + (l7 + (f7 + l8)))))))));
    let p6 = p5 + f3.len();
    lemma_sub_split(s, p5, f3, l4 + (f4 + (l5 + (f5 + (l6 + (f6 + (l7 + (f7 + l8))))))));
    let p7 = p6 + l4.len();
    lemma_sub_split(s, p6, l4, f4 + (l5 + (f5 + (l6 + (f6 + (l7 + (f7 + l8)))))));
    let p8 = p7 + f4.len();
    lemma_sub_split(s, p7, f4, l5 + (f5 + (l6 + (f6 + (l7 + (f7 + l8))))));
    let p9 = p8 + l5.len();
    lemma_sub_split(s, p8, l5, f5 + (l6 + (f6 + (l7 + (f7 + l8)))));
    let p10 = p9 + f5.len();
    lemma_sub_split(s, p9, f5, l6 + (f6 + (l7 + (f7 + l8))));
    let p11 = p10 + l6.len();
    lemma_sub_split(s, p10, l6, f6 + (l7 + (f7 + l8)));
    let p12 = p11 + f6.len();
    lemma_sub_split(s, p11, f6, l7 + (f7 + l8));
    let p13 = p12 + l7.len();
    lemma_sub_split(s, p12, l7, f7 + l8);
    let p14 = p13 + f7.len();
    lemma_sub_split(s, p13, f7, l8);
    lemma_inv_expect(s, i, l1);
    lemma_inv_str(s, p1, cv.trigger_word);
    lemma_inv_expect(s, p2, l2);
    assert(s.subrange(p4, p4 + l3.len())[0] == s[p4]);
    assert(s[p4] == ',');
    lemma_inv_u64(s, p3, cv.threshold);
    lemma_inv_expect(s, p4, l3);
    lemma_inv_str_list(s, p5, cv.medals);
    lemma_inv_expect(s, p6, l4);
    lemma_inv_str(s, p7, cv.tater_emoji);
    lemma_inv_expect(s, p8, l5);
    lemma_inv_u64_list(s, p9, cv.blacklisted_channels);
    lemma_inv_expect(s, p10, l6);
    assert(s.subrange(p12, p12 + l7.len())[0] == s[p12]);
    assert(s[p12] == ',');
    lemma_inv_u64(s, p11, cv.pin_channel);
    lemma_inv_expect(s, p12, l7);
    lemma_inv_u64_list(s, p13, cv.admins);
    lemma_inv_expect(s, p14, l8);
}

} // verus!
