//! Persistence: rendering a community's two artifacts to text, reading
//! them back, and the startup discovery of community identifiers from
//! stored file names.  Reading what was written restores the value; a
//! community whose artifacts are missing or malformed is skipped whole.

use vstd::prelude::*;

use crate::codec::{
    enc_config, enc_count_entry, enc_count_items, enc_count_map, enc_counters, enc_msg,
    enc_msg_entry, enc_msg_items, enc_msg_map, enc_opt_u64, enc_str, enc_str_items, enc_str_list,
    enc_u64_items, enc_u64_list, esc_chars,
};
use crate::codec::{
    lemma_enc_count_items_push, lemma_enc_msg_items_push, lemma_enc_str_items_push,
    lemma_enc_u64_items_push, lemma_esc_chars_push,
};
use crate::ledger::{Config, LedgerEntity, TateredMessage};
use crate::maps::{CountMap, MsgMap};
use crate::text::{chars_to_string, dec_digits, push_dec, push_str_chars, str_to_chars};

verus! {

/// Appends a string's characters, escaped for a quoted context.
fn push_esc(out: &mut Vec<char>, s: &str)
    ensures
        final(out)@ == old(out)@ + esc_chars(s@),
{
    let n = s.unicode_len();
    proof {
        assert(s@.subrange(0, 0) =~= Seq::<char>::empty());
        assert(out@ =~= old(out)@ + esc_chars(s@.subrange(0, 0)));
    }
    let mut i: usize = 0;
    while i < n
        invariant
            n == s@.len(),
            i <= n,
            out@ == old(out)@ + esc_chars(s@.subrange(0, i as int)),
        decreases n - i,
    {
        let c = s.get_char(i);
        if c == '"' || c == '\\' {
            out.push('\\');
            out.push(c);
        } else {
            out.push(c);
        }
        proof {
            lemma_esc_chars_push(s@.subrange(0, i as int), c);
            assert(s@.subrange(0, i + 1) =~= s@.subrange(0, i as int).push(c));
            assert(out@ =~= old(out)@ + esc_chars(s@.subrange(0, i + 1)));
        }
        i = i + 1;
    }
    proof {
        assert(s@.subrange(0, n as int) =~= s@);
    }
}

/// Appends a quoted string.
fn push_quoted(out: &mut Vec<char>, s: &str)
    ensures
        final(out)@ == old(out)@ + enc_str(s@),
{
    out.push('"');
    push_esc(out, s);
    out.push('"');
    proof {
        assert(out@ =~= old(out)@ + enc_str(s@));
    }
}

/// Appends an optional number.
fn push_opt_u64(out: &mut Vec<char>, o: Option<u64>)
    ensures
        final(out)@ == old(out)@ + enc_opt_u64(o),
{
    match o {
        Some(v) => push_dec(out, v),
        None => push_str_chars(out, "null"),
    }
}

/// Appends one counter binding.
fn push_count_entry(out: &mut Vec<char>, k: u64, v: u64)
    ensures
        final(out)@ == old(out)@ + enc_count_entry((k, v)),
{
    out.push('"');
    push_dec(out, k);
    push_str_chars(out, "\":");
    push_dec(out, v);
    proof {
        assert(out@ =~= old(out)@ + enc_count_entry((k, v)));
    }
}

/// Appends a counter map object.
fn push_count_map(out: &mut Vec<char>, map: &CountMap)
    ensures
        final(out)@ == old(out)@ + enc_count_map(map@),
{
    let ghost s = map@;
    out.push('{');
    if map.entries.len() > 0 {
        let first = map.entries[0];
        push_count_entry(out, first.0, first.1);
        proof {
            assert(s.subrange(0, 1) =~= seq![s[0]]);
            assert(enc_count_items(s.subrange(0, 1)) == enc_count_entry(s[0]));
        }
        let mut i: usize = 1;
        while i < map.entries.len()
            invariant
                s == map@,
                1 <= i <= s.len(),
                out@ == old(out)@ + seq!['{'] + enc_count_items(s.subrange(0, i as int)),
            decreases s.len() - i,
        {
            out.push(',');
            let e = map.entries[i];
            push_count_entry(out, e.0, e.1);
            proof {
                lemma_enc_count_items_push(s.subrange(0, i as int), s[i as int]);
                assert(s.subrange(0, i + 1) =~= s.subrange(0, i as int).push(s[i as int]));
                assert(out@ =~= old(out)@ + seq!['{'] + enc_count_items(s.subrange(0, i + 1)));
            }
            i = i + 1;
        }
        proof {
            assert(s.subrange(0, s.len() as int) =~= s);
        }
    } else {
        proof {
            assert(s =~= Seq::<(u64, u64)>::empty());
        }
    }
    out.push('}');
    proof {
        assert(out@ =~= old(out)@ + enc_count_map(s));
    }
}

/// Appends one cached message state object.
fn push_msg(out: &mut Vec<char>, tm: &TateredMessage)
    ensures
        final(out)@ == old(out)@ + enc_msg(*tm),
{
    push_str_chars(out, "{\"sender\":");
    push_dec(out, tm.sender);
    push_str_chars(out, ",\"count\":");
    push_dec(out, tm.count);
    push_str_chars(out, ",\"pin_id\":");
    push_opt_u64(out, tm.pin_id);
    push_str_chars(out, "}");
    proof {
        assert(out@ =~= old(out)@ + enc_msg(*tm));
    }
}

/// Appends one cached message binding.
fn push_msg_entry(out: &mut Vec<char>, k: u64, tm: &TateredMessage)
    ensures
        final(out)@ == old(out)@ + enc_msg_entry((k, *tm)),
{
    out.push('"');
    push_dec(out, k);
    push_str_chars(out, "\":");
    push_msg(out, tm);
    proof {
        assert(out@ =~= old(out)@ + enc_msg_entry((k, *tm)));
    }
}

/// Appends the cached message map object.
fn push_msg_map(out: &mut Vec<char>, map: &MsgMap)
    ensures
        final(out)@ == old(out)@ + enc_msg_map(map@),
{
    let ghost s = map@;
    out.push('{');
    if map.entries.len() > 0 {
        let first_key = map.entries[0].0;
        let first_val = map.entries[0].1;
        push_msg_entry(out, first_key, &first_val);
        proof {
            assert(s.subrange(0, 1) =~= seq![s[0]]);
            assert(enc_msg_items(s.subrange(0, 1)) == enc_msg_entry(s[0]));
        }
        let mut i: usize = 1;
        while i < map.entries.len()
            invariant
                s == map@,
                1 <= i <= s.len(),
                out@ == old(out)@ + seq!['{'] + enc_msg_items(s.subrange(0, i as int)),
            decreases s.len() - i,
        {
            out.push(',');
            let k = map.entries[i].0;
            let v = map.entries[i].1;
            push_msg_entry(out, k, &v);
            proof {
                lemma_enc_msg_items_push(s.subrange(0, i as int), s[i as int]);
                assert(s.subrange(0, i + 1) =~= s.subrange(0, i as int).push(s[i as int]));
                assert(out@ =~= old(out)@ + seq!['{'] + enc_msg_items(s.subrange(0, i + 1)));
            }
            i = i + 1;
        }
        proof {
            assert(s.subrange(0, s.len() as int) =~= s);
        }
    } else {
        proof {
            assert(s =~= Seq::<(u64, TateredMessage)>::empty());
        }
    }
    out.push('}');
    proof {
        assert(out@ =~= old(out)@ + enc_msg_map(s));
    }
}

/// Appends a bracketed list of numbers.
fn push_u64_list(out: &mut Vec<char>, v: &Vec<u64>)
    ensures
        final(out)@ == old(out)@ + enc_u64_list(v@),
{
    let ghost s = v@;
    out.push('[');
    if v.len() > 0 {
        push_dec(out, v[0]);
        proof {
            assert(s.subrange(0, 1) =~= seq![s[0]]);
            assert(enc_u64_items(s.subrange(0, 1)) == dec_digits(s[0] as nat));
        }
        let mut i: usize = 1;
        while i < v.len()
            invariant
                s == v@,
                1 <= i <= s.len(),
                out@ == old(out)@ + seq!['['] + enc_u64_items(s.subrange(0, i as int)),
            decreases s.len() - i,
        {
            out.push(',');
            push_dec(out, v[i]);
            proof {
                lemma_enc_u64_items_push(s.subrange(0, i as int), s[i as int]);
                assert(s.subrange(0, i + 1) =~= s.subrange(0, i as int).push(s[i as int]));
                assert(out@ =~= old(out)@ + seq!['['] + enc_u64_items(s.subrange(0, i + 1)));
            }
            i = i + 1;
        }
        proof {
            assert(s.subrange(0, s.len() as int) =~= s);
        }
    } else {
        proof {
            assert(s =~= Seq::<u64>::empty());
        }
    }
    out.push(']');
    proof {
        assert(out@ =~= old(out)@ + enc_u64_list(s));
    }
}

/// Appends a bracketed list of quoted strings.
fn push_str_list(out: &mut Vec<char>, v: &Vec<String>)
    ensures
        final(out)@ == old(out)@ + enc_str_list(v.deep_view()),
{
    let ghost s = v.deep_view();
    proof {
        assert(s.len() == v@.len());
    }
    out.push('[');
    if v.len() > 0 {
        push_quoted(out, v[0].as_str());
        proof {
            assert(s[0] == v@[0]@);
            assert(s.subrange(0, 1) =~= seq![s[0]]);
            assert(enc_str_items(s.subrange(0, 1)) == enc_str(s[0]));
        }
        let mut i: usize = 1;
        while i < v.len()
            invariant
                s == v.deep_view(),
                1 <= i <= s.len(),
                s.len() == v@.len(),
                out@ == old(out)@ + seq!['['] + enc_str_items(s.subrange(0, i as int)),
            decreases s.len() - i,
        {
            out.push(',');
            push_quoted(out, v[i].as_str());
            proof {
                assert(s[i as int] == v@[i as int]@);
                lemma_enc_str_items_push(s.subrange(0, i as int), s[i as int]);
                assert(s.subrange(0, i + 1) =~= s.subrange(0, i as int).push(s[i as int]));
                assert(out@ =~= old(out)@ + seq!['['] + enc_str_items(s.subrange(0, i + 1)));
            }
            i = i + 1;
        }
        proof {
            assert(s.subrange(0, s.len() as int) =~= s);
        }
    } else {
        proof {
            assert(s =~= Seq::<Seq<char>>::empty());
        }
    }
    out.push(']');
    proof {
        assert(out@ =~= old(out)@ + enc_str_list(s));
    }
}

/// Renders a community's counters artifact.
pub fn encode_counters(entity: &LedgerEntity) -> (s: String)
    ensures
        s@ == enc_counters(entity@.tatered_messages, entity@.taters_got, entity@.taters_given),
{
    let mut out: Vec<char> = Vec::new();
    push_str_chars(&mut out, "{\"tatered_messages\":");
    push_msg_map(&mut out, &entity.tatered_messages);
    push_str_chars(&mut out, ",\"taters_got\":");
    push_count_map(&mut out, &entity.taters_got);
    push_str_chars(&mut out, ",\"taters_given\":");
    push_count_map(&mut out, &entity.taters_given);
    push_str_chars(&mut out, "}");
    proof {
        assert(out@ =~= enc_counters(
            entity@.tatered_messages,
            entity@.taters_got,
            entity@.taters_given,
        ));
    }
    chars_to_string(&out)
}

/// Renders a community's configuration artifact.
pub fn encode_config(config: &Config) -> (s: String)
    ensures
        s@ == enc_config(config@),
{
    let mut out: Vec<char> = Vec::new();
    push_str_chars(&mut out, "{\"trigger_word\":");
    push_quoted(&mut out, config.trigger_word.as_str());
    push_str_chars(&mut out, ",\"threshold\":");
    push_dec(&mut out, config.threshold);
    push_str_chars(&mut out, ",\"medals\":");
    push_str_list(&mut out, &config.medals);
    push_str_chars(&mut out, ",\"tater_emoji\":");
    push_quoted(&mut out, config.tater_emoji.as_str());
    push_str_chars(&mut out, ",\"blacklisted_channels\":");
    push_u64_list(&mut out, &config.blacklisted_channels);
    push_str_chars(&mut out, ",\"pin_channel\":");
    push_dec(&mut out, config.pin_channel);
    push_str_chars(&mut out, ",\"admins\":");
    push_u64_list(&mut out, &config.admins);
    push_str_chars(&mut out, "}");
    proof {
        assert(out@ =~= enc_config(config@));
    }
    chars_to_string(&out)
}

/// The value of one digit character, if it is one.
fn digit_of(c: char) -> (r: Option<u64>)
    ensures
        match r {
            Some(d) => crate::text::is_digit(c) && d == crate::text::digit_val(c),
            None => !crate::text::is_digit(c),
        },
{
    match c {
        '0' => Some(0),
        '1' => Some(1),
        '2' => Some(2),
        '3' => Some(3),
        '4' => Some(4),
        '5' => Some(5),
        '6' => Some(6),
        '7' => Some(7),
        '8' => Some(8),
        '9' => Some(9),
        _ => None,
    }
}

/// Reads a number at `i`, exactly as the grammar does.
pub(crate) fn parse_u64_at(s: &Vec<char>, i: usize) -> (r: Option<(u64, usize)>)
    ensures
        match r {
            Some((v, e)) => crate::codec::sp_parse_u64(s@, i as int) == Some((v, e as int)),
            None => crate::codec::sp_parse_u64(s@, i as int) is None,
        },
{
    if i >= s.len() {
        return None;
    }
    if digit_of(s[i]).is_none() {
        return None;
    }
    let ghost t = s@;
    // First find where the digit run ends.
    let mut e: usize = i;
    while e < s.len() && is_digit_exec(s[e])
        invariant
            t == s@,
            i <= e <= t.len(),
            crate::codec::digit_run_end(t, i as int) == crate::codec::digit_run_end(t, e as int),
        decreases t.len() - e,
    {
        e = e + 1;
    }
    proof {
        assert(crate::codec::digit_run_end(t, e as int) == e);
        crate::codec::lemma_digit_run_end(t, i as int);
    }
    // Then accumulate its value, watching for overflow.
    let mut j: usize = i;
    let mut acc: u64 = 0;
    proof {
        assert(t.subrange(i as int, i as int) =~= Seq::<char>::empty());
    }
    while j < e
        invariant
            t == s@,
            i <= j <= e <= t.len(),
            e == crate::codec::digit_run_end(t, i as int),
            forall|k: int| i <= k < e ==> crate::text::is_digit(#[trigger] t[k]),
            acc == crate::text::dec_value(t.subrange(i as int, j as int)),
        decreases e - j,
    {
        let d = match digit_of(s[j]) {
            Some(d) => d,
            None => {
                proof {
                    assert(false);
                }
                0
            },
        };
        proof {
            assert(t.subrange(i as int, j + 1).drop_last() =~= t.subrange(i as int, j as int));
            assert(t.subrange(i as int, j + 1).last() == t[j as int]);
        }
        if acc > (u64::MAX - d) / 10 {
            // The run's value has already outgrown the machine word.
            proof {
                let run = t.subrange(i as int, e as int);
                assert(run.subrange(0, j + 1 - i) =~= t.subrange(i as int, j + 1));
                crate::text::lemma_dec_value_prefix(run, j + 1 - i);
                assert(acc * 10 + d > u64::MAX) by (nonlinear_arith)
                    requires
                        acc > (u64::MAX - d) / 10,
                        d <= 9,
                        acc >= 0,
                ;
                assert(crate::text::dec_value(t.subrange(i as int, j + 1)) > u64::MAX);
            }
            return None;
        }
        proof {
            assert(acc * 10 + d <= u64::MAX) by (nonlinear_arith)
                requires
                    acc <= (u64::MAX - d) / 10,
                    d <= 9,
                    acc >= 0,
            ;
        }
        acc = acc * 10 + d;
        j = j + 1;
    }
    Some((acc, e))
}

/// Whether a character is a decimal digit.
fn is_digit_exec(c: char) -> (r: bool)
    ensures
        r == crate::text::is_digit(c),
{
    c == '0' || c == '1' || c == '2' || c == '3' || c == '4' || c == '5' || c == '6' || c == '7'
        || c == '8' || c == '9'
}

/// Matches an exact literal at `i`.
fn expect_at(s: &Vec<char>, i: usize, lit: &str) -> (r: Option<usize>)
    ensures
        match r {
            Some(e) => crate::codec::sp_expect(s@, i as int, lit@) == Some(e as int),
            None => crate::codec::sp_expect(s@, i as int, lit@) is None,
        },
{
    let n = lit.unicode_len();
    if i > s.len() || n > s.len() - i {
        return None;
    }
    let ghost t = s@;
    let mut j: usize = 0;
    while j < n
        invariant
            t == s@,
            j <= n,
            n == lit@.len(),
            i + n <= t.len(),
            t.len() <= usize::MAX,
            forall|k: int| 0 <= k < j ==> t[i + k] == lit@[k],
        decreases n - j,
    {
        proof {
            assert(i + j < t.len());
        }
        if !(s[i + j] == lit.get_char(j)) {
            proof {
                assert(t.subrange(i as int, i + n)[j as int] == t[i + j]);
                assert(t.subrange(i as int, i + n) != lit@);
            }
            return None;
        }
        j = j + 1;
    }
    proof {
        assert(t.subrange(i as int, i + n) =~= lit@);
    }
    Some(i + n)
}

/// Reads a quoted string's body from `i` on, exactly as the grammar does.
fn parse_str_body_at(s: &Vec<char>, i: usize) -> (r: Option<(Vec<char>, usize)>)
    ensures
        match r {
            Some((v, e)) => crate::codec::sp_parse_str_body(s@, i as int) == Some((v@, e as int)),
            None => crate::codec::sp_parse_str_body(s@, i as int) is None,
        },
    decreases s@.len() - i,
{
    if i >= s.len() {
        return None;
    }
    let c = s[i];
    if c == '"' {
        let empty: Vec<char> = Vec::new();
        proof {
            assert(empty@ =~= Seq::<char>::empty());
        }
        Some((empty, i + 1))
    } else if c == '\\' {
        if i + 1 < s.len() && (s[i + 1] == '"' || s[i + 1] == '\\') {
            let esc = s[i + 1];
            match parse_str_body_at(s, i + 2) {
                Some((mut v, e)) => {
                    let ghost tail = v@;
                    v.insert(0, esc);
                    proof {
                        assert(v@ =~= seq![s@[i + 1]] + tail);
                    }
                    Some((v, e))
                },
                None => None,
            }
        } else {
            None
        }
    } else {
        match parse_str_body_at(s, i + 1) {
            Some((mut v, e)) => {
                let ghost tail = v@;
                v.insert(0, c);
                proof {
                    assert(v@ =~= seq![s@[i as int]] + tail);
                }
                Some((v, e))
            },
            None => None,
        }
    }
}

/// Reads a quoted string at `i`.
fn parse_str_at(s: &Vec<char>, i: usize) -> (r: Option<(String, usize)>)
    ensures
        match r {
            Some((v, e)) => crate::codec::sp_parse_str(s@, i as int) == Some((v@, e as int)),
            None => crate::codec::sp_parse_str(s@, i as int) is None,
        },
{
    if i < s.len() && s[i] == '"' {
        match parse_str_body_at(s, i + 1) {
            Some((v, e)) => Some((chars_to_string(&v), e)),
            None => None,
        }
    } else {
        None
    }
}

/// Reads an optional number at `i`.
fn parse_opt_u64_at(s: &Vec<char>, i: usize) -> (r: Option<(Option<u64>, usize)>)
    ensures
        match r {
            Some((v, e)) => crate::codec::sp_parse_opt_u64(s@, i as int) == Some((v, e as int)),
            None => crate::codec::sp_parse_opt_u64(s@, i as int) is None,
        },
{
    if i < s.len() && s[i] == 'n' {
        match expect_at(s, i, "null") {
            Some(e) => Some((None, e)),
            None => None,
        }
    } else {
        match parse_u64_at(s, i) {
            Some((v, e)) => Some((Some(v), e)),
            None => None,
        }
    }
}

/// Reads a comma-separated number run from `i` on.
fn parse_u64_items_at(s: &Vec<char>, i: usize) -> (r: Option<(Vec<u64>, usize)>)
    ensures
        match r {
            Some((v, e)) => crate::codec::sp_parse_u64_items(s@, i as int) == Some((v@, e as int)),
            None => crate::codec::sp_parse_u64_items(s@, i as int) is None,
        },
    decreases s@.len() - i,
{
    match parse_u64_at(s, i) {
        None => None,
        Some((v, e)) => {
            proof {
                crate::codec::lemma_sp_parse_u64_advances(s@, i as int);
            }
            if e < s.len() && s[e] == ',' {
                match parse_u64_items_at(s, e + 1) {
                    None => None,
                    Some((mut vs, e2)) => {
                        let ghost tail = vs@;
                        vs.insert(0, v);
                        proof {
                            assert(vs@ =~= seq![v] + tail);
                        }
                        Some((vs, e2))
                    },
                }
            } else {
                let mut vs: Vec<u64> = Vec::new();
                vs.push(v);
                proof {
                    assert(vs@ =~= seq![v]);
                }
                Some((vs, e))
            }
        },
    }
}

/// Reads a bracketed number list at `i`.
fn parse_u64_list_at(s: &Vec<char>, i: usize) -> (r: Option<(Vec<u64>, usize)>)
    ensures
        match r {
            Some((v, e)) => crate::codec::sp_parse_u64_list(s@, i as int) == Some((v@, e as int)),
            None => crate::codec::sp_parse_u64_list(s@, i as int) is None,
        },
{
    if i < s.len() && s[i] == '[' {
        if i + 1 < s.len() && s[i + 1] == ']' {
            let empty: Vec<u64> = Vec::new();
            proof {
                assert(empty@ =~= Seq::<u64>::empty());
            }
            Some((empty, i + 2))
        } else {
            match parse_u64_items_at(s, i + 1) {
                None => None,
                Some((vs, e)) => if e < s.len() && s[e] == ']' {
                    Some((vs, e + 1))
                } else {
                    None
                },
            }
        }
    } else {
        None
    }
}

/// Reads a comma-separated quoted string run from `i` on.
fn parse_str_items_at(s: &Vec<char>, i: usize) -> (r: Option<(Vec<String>, usize)>)
    ensures
        match r {
            Some((v, e)) => crate::codec::sp_parse_str_items(s@, i as int) == Some(
                (v.deep_view(), e as int),
            ),
            None => crate::codec::sp_parse_str_items(s@, i as int) is None,
        },
    decreases s@.len() - i,
{
    match parse_str_at(s, i) {
        None => None,
        Some((v, e)) => {
            proof {
                if i < s@.len() && s@[i as int] == '"' {
                    crate::codec::lemma_sp_parse_str_body_advances(s@, i as int + 1);
                }
            }
            if e < s.len() && s[e] == ',' {
                match parse_str_items_at(s, e + 1) {
                    None => None,
                    Some((mut vs, e2)) => {
                        let ghost tail = vs.deep_view();
                        let ghost pre = vs@;
                        let ghost head = v@;
                        vs.insert(0, v);
                        proof {
                            assert(vs@ =~= seq![v] + pre);
                            assert(vs.deep_view() =~= seq![head] + tail) by {
                                assert(vs.deep_view().len() == vs@.len());
                                assert forall|k: int| 0 <= k < vs@.len() implies vs.deep_view()[k]
                                    == (seq![head] + tail)[k] by {
                                    assert(vs.deep_view()[k] == vs@[k]@);
                                    if k > 0 {
                                        assert(vs@[k] == pre[k - 1]);
                                        assert(tail[k - 1] == pre[k - 1]@);
                                    }
                                }
                            }
                        }
                        Some((vs, e2))
                    },
                }
            } else {
                let ghost head = v@;
                let mut vs: Vec<String> = Vec::new();
                vs.push(v);
                proof {
                    assert(vs.deep_view() =~= seq![head]) by {
                        assert(vs.deep_view().len() == 1);
                        assert(vs.deep_view()[0] == vs@[0]@);
                    }
                }
                Some((vs, e))
            }
        },
    }
}

/// Reads a bracketed quoted string list at `i`.
fn parse_str_list_at(s: &Vec<char>, i: usize) -> (r: Option<(Vec<String>, usize)>)
    ensures
        match r {
            Some((v, e)) => crate::codec::sp_parse_str_list(s@, i as int) == Some(
                (v.deep_view(), e as int),
            ),
            None => crate::codec::sp_parse_str_list(s@, i as int) is None,
        },
{
    if i < s.len() && s[i] == '[' {
        if i + 1 < s.len() && s[i + 1] == ']' {
            let empty: Vec<String> = Vec::new();
            proof {
                assert(empty.deep_view() =~= Seq::<Seq<char>>::empty());
            }
            Some((empty, i + 2))
        } else {
            match parse_str_items_at(s, i + 1) {
                None => None,
                Some((vs, e)) => if e < s.len() && s[e] == ']' {
                    Some((vs, e + 1))
                } else {
                    None
                },
            }
        }
    } else {
        None
    }
}

/// Reads one counter binding at `i`.
fn parse_count_entry_at(s: &Vec<char>, i: usize) -> (r: Option<((u64, u64), usize)>)
    ensures
        match r {
            Some((p, e)) => crate::codec::sp_parse_count_entry(s@, i as int) == Some(
                (p, e as int),
            ),
            None => crate::codec::sp_parse_count_entry(s@, i as int) is None,
        },
{
    if i < s.len() && s[i] == '"' {
        match parse_u64_at(s, i + 1) {
            None => None,
            Some((k, e)) => match expect_at(s, e, "\":") {
                None => None,
                Some(e2) => match parse_u64_at(s, e2) {
                    None => None,
                    Some((v, e3)) => Some(((k, v), e3)),
                },
            },
        }
    } else {
        None
    }
}

/// Reads a comma-separated counter binding run from `i` on.
fn parse_count_items_at(s: &Vec<char>, i: usize) -> (r: Option<(Vec<(u64, u64)>, usize)>)
    ensures
        match r {
            Some((v, e)) => crate::codec::sp_parse_count_items(s@, i as int) == Some(
                (v@, e as int),
            ),
            None => crate::codec::sp_parse_count_items(s@, i as int) is None,
        },
    decreases s@.len() - i,
{
    match parse_count_entry_at(s, i) {
        None => None,
        Some((p, e)) => {
            proof {
                crate::codec::lemma_sp_parse_count_entry_advances(s@, i as int);
            }
            if e < s.len() && s[e] == ',' {
                match parse_count_items_at(s, e + 1) {
                    None => None,
                    Some((mut vs, e2)) => {
                        let ghost tail = vs@;
                        vs.insert(0, p);
                        proof {
                            assert(vs@ =~= seq![p] + tail);
                        }
                        Some((vs, e2))
                    },
                }
            } else {
                let mut vs: Vec<(u64, u64)> = Vec::new();
                vs.push(p);
                proof {
                    assert(vs@ =~= seq![p]);
                }
                Some((vs, e))
            }
        },
    }
}

/// Reads a counter map object at `i`.
fn parse_count_map_at(s: &Vec<char>, i: usize) -> (r: Option<(Vec<(u64, u64)>, usize)>)
    ensures
        match r {
            Some((v, e)) => crate::codec::sp_parse_count_map(s@, i as int) == Some((v@, e as int)),
            None => crate::codec::sp_parse_count_map(s@, i as int) is None,
        },
{
    if i < s.len() && s[i] == '{' {
        if i + 1 < s.len() && s[i + 1] == '}' {
            let empty: Vec<(u64, u64)> = Vec::new();
            proof {
                assert(empty@ =~= Seq::<(u64, u64)>::empty());
            }
            Some((empty, i + 2))
        } else {
            match parse_count_items_at(s, i + 1) {
                None => None,
                Some((vs, e)) => if e < s.len() && s[e] == '}' {
                    Some((vs, e + 1))
                } else {
                    None
                },
            }
        }
    } else {
        None
    }
}

/// Reads one cached message state object at `i`.
fn parse_msg_at(s: &Vec<char>, i: usize) -> (r: Option<(TateredMessage, usize)>)
    ensures
        match r {
            Some((tm, e)) => crate::codec::sp_parse_msg(s@, i as int) == Some((tm, e as int)),
            None => crate::codec::sp_parse_msg(s@, i as int) is None,
        },
{
    match expect_at(s, i, "{\"sender\":") {
        None => None,
        Some(e) => match parse_u64_at(s, e) {
            None => None,
            Some((sender, e2)) => match expect_at(s, e2, ",\"count\":") {
                None => None,
                Some(e3) => match parse_u64_at(s, e3) {
                    None => None,
                    Some((count, e4)) => match expect_at(s, e4, ",\"pin_id\":") {
                        None => None,
                        Some(e5) => match parse_opt_u64_at(s, e5) {
                            None => None,
                            Some((pin, e6)) => match expect_at(s, e6, "}") {
                                None => None,
                                Some(e7) => Some(
                                    (TateredMessage { sender, count, pin_id: pin }, e7),
                                ),
                            },
                        },
                    },
                },
            },
        },
    }
}

/// Reads one cached message binding at `i`.
fn parse_msg_entry_at(s: &Vec<char>, i: usize) -> (r: Option<((u64, TateredMessage), usize)>)
    ensures
        match r {
            Some((p, e)) => crate::codec::sp_parse_msg_entry(s@, i as int) == Some((p, e as int)),
            None => crate::codec::sp_parse_msg_entry(s@, i as int) is None,
        },
{
    if i < s.len() && s[i] == '"' {
        match parse_u64_at(s, i + 1) {
            None => None,
            Some((k, e)) => match expect_at(s, e, "\":") {
                None => None,
                Some(e2) => match parse_msg_at(s, e2) {
                    None => None,
                    Some((tm, e3)) => Some(((k, tm), e3)),
                },
            },
        }
    } else {
        None
    }
}

/// Reads a comma-separated message binding run from `i` on.
fn parse_msg_items_at(s: &Vec<char>, i: usize) -> (r: Option<(Vec<(u64, TateredMessage)>, usize)>)
    ensures
        match r {
            Some((v, e)) => crate::codec::sp_parse_msg_items(s@, i as int) == Some(
                (v@, e as int),
            ),
            None => crate::codec::sp_parse_msg_items(s@, i as int) is None,
        },
    decreases s@.len() - i,
{
    match parse_msg_entry_at(s, i) {
        None => None,
        Some((p, e)) => {
            proof {
                crate::codec::lemma_sp_parse_msg_entry_advances(s@, i as int);
            }
            if e < s.len() && s[e] == ',' {
                match parse_msg_items_at(s, e + 1) {
                    None => None,
                    Some((mut vs, e2)) => {
                        let ghost tail = vs@;
                        vs.insert(0, p);
                        proof {
                            assert(vs@ =~= seq![p] + tail);
                        }
                        Some((vs, e2))
                    },
                }
            } else {
                let mut vs: Vec<(u64, TateredMessage)> = Vec::new();
                vs.push(p);
                proof {
                    assert(vs@ =~= seq![p]);
                }
                Some((vs, e))
            }
        },
    }
}

/// Reads a cached message map object at `i`.
fn parse_msg_map_at(s: &Vec<char>, i: usize) -> (r: Option<(Vec<(u64, TateredMessage)>, usize)>)
    ensures
        match r {
            Some((v, e)) => crate::codec::sp_parse_msg_map(s@, i as int) == Some((v@, e as int)),
            None => crate::codec::sp_parse_msg_map(s@, i as int) is None,
        },
{
    if i < s.len() && s[i] == '{' {
        if i + 1 < s.len() && s[i + 1] == '}' {
            let empty: Vec<(u64, TateredMessage)> = Vec::new();
            proof {
                assert(empty@ =~= Seq::<(u64, TateredMessage)>::empty());
            }
            Some((empty, i + 2))
        } else {
            match parse_msg_items_at(s, i + 1) {
                None => None,
                Some((vs, e)) => if e < s.len() && s[e] == '}' {
                    Some((vs, e + 1))
                } else {
                    None
                },
            }
        }
    } else {
        None
    }
}

/// What a counters artifact text decodes to: all three maps, provided the
/// whole text is consumed and no map repeats a key.
pub open spec fn decoded_counters(t: Seq<char>) -> Option<
    (Seq<(u64, TateredMessage)>, Seq<(u64, u64)>, Seq<(u64, u64)>),
> {
    match crate::codec::sp_parse_counters(t, 0) {
        Some((v, e)) => if e == t.len() && crate::assoc::keys_unique(v.0)
            && crate::assoc::keys_unique(v.1) && crate::assoc::keys_unique(v.2) {
            Some(v)
        } else {
            None
        },
        None => None,
    }
}

/// What a configuration artifact text decodes to, provided the whole text
/// is consumed and the configuration is well formed.
pub open spec fn decoded_config(t: Seq<char>) -> Option<crate::ledger::ConfigView> {
    match crate::codec::sp_parse_config(t, 0) {
        Some((cv, e)) => if e == t.len() && cv.wf() {
            Some(cv)
        } else {
            None
        },
        None => None,
    }
}

/// Reads a counters artifact: all three maps, or nothing when the text is
/// not exactly an artifact with unique keys.
pub fn parse_counters(text: &str) -> (r: Option<(MsgMap, CountMap, CountMap)>)
    ensures
        match decoded_counters(text@) {
            Some((tm, got, given)) => {
                &&& r is Some
                &&& r->Some_0.0@ == tm
                &&& r->Some_0.1@ == got
                &&& r->Some_0.2@ == given
                &&& r->Some_0.0.wf()
                &&& r->Some_0.1.wf()
                &&& r->Some_0.2.wf()
            },
            None => r is None,
        },
{
    let chars = str_to_chars(text);
    match parse_counters_at(&chars, 0) {
        None => None,
        Some(((tm, got, given), e)) => {
            if e != chars.len() {
                return None;
            }
            if !crate::assoc::check_keys_unique(&tm) {
                return None;
            }
            if !crate::assoc::check_keys_unique(&got) {
                return None;
            }
            if !crate::assoc::check_keys_unique(&given) {
                return None;
            }
            Some(
                (
                    MsgMap { entries: tm },
                    CountMap { entries: got },
                    CountMap { entries: given },
                ),
            )
        },
    }
}

/// Reads the whole counters artifact body at `i`.
fn parse_counters_at(s: &Vec<char>, i: usize) -> (r: Option<
    ((Vec<(u64, TateredMessage)>, Vec<(u64, u64)>, Vec<(u64, u64)>), usize),
>)
    ensures
        match r {
            Some(((tm, got, given), e)) => crate::codec::sp_parse_counters(s@, i as int) == Some(
                ((tm@, got@, given@), e as int),
            ),
            None => crate::codec::sp_parse_counters(s@, i as int) is None,
        },
{
    match expect_at(s, i, "{\"tatered_messages\":") {
        None => None,
        Some(e) => match parse_msg_map_at(s, e) {
            None => None,
            Some((tm, e2)) => match expect_at(s, e2, ",\"taters_got\":") {
                None => None,
                Some(e3) => match parse_count_map_at(s, e3) {
                    None => None,
                    Some((got, e4)) => match expect_at(s, e4, ",\"taters_given\":") {
                        None => None,
                        Some(e5) => match parse_count_map_at(s, e5) {
                            None => None,
                            Some((given, e6)) => match expect_at(s, e6, "}") {
                                None => None,
                                Some(e7) => Some(((tm, got, given), e7)),
                            },
                        },
                    },
                },
            },
        },
    }
}

/// Reads a configuration artifact: the configuration, or nothing when the
/// text is not exactly a well-formed configuration.
pub fn parse_config(text: &str) -> (r: Option<Config>)
    ensures
        match decoded_config(text@) {
            Some(cv) => r is Some && r->Some_0@ == cv && r->Some_0@.wf(),
            None => r is None,
        },
{
    let chars = str_to_chars(text);
    match parse_config_at(&chars, 0) {
        None => None,
        Some((config, e)) => {
            if e != chars.len() {
                return None;
            }
            if config.threshold < 1 {
                return None;
            }
            if !crate::assoc::check_no_duplicates(&config.blacklisted_channels) {
                return None;
            }
            if !crate::assoc::check_no_duplicates(&config.admins) {
                return None;
            }
            Some(config)
        },
    }
}

/// Reads the whole configuration artifact body at `i`.
fn parse_config_at(s: &Vec<char>, i: usize) -> (r: Option<(Config, usize)>)
    ensures
        match r {
            Some((config, e)) => crate::codec::sp_parse_config(s@, i as int) == Some(
                (config@, e as int),
            ),
            None => crate::codec::sp_parse_config(s@, i as int) is None,
        },
{
    match expect_at(s, i, "{\"trigger_word\":") {
        None => None,
        Some(e1) => match parse_str_at(s, e1) {
            None => None,
            Some((trigger_word, e2)) => match expect_at(s, e2, ",\"threshold\":") {
                None => None,
                Some(e3) => match parse_u64_at(s, e3) {
                    None => None,
                    Some((threshold, e4)) => match expect_at(s, e4, ",\"medals\":") {
                        None => None,
                        Some(e5) => match parse_str_list_at(s, e5) {
                            None => None,
                            Some((medals, e6)) => match expect_at(s, e6, ",\"tater_emoji\":") {
                                None => None,
                                Some(e7) => match parse_str_at(s, e7) {
                                    None => None,
                                    Some((tater_emoji, e8)) => match expect_at(
                                        s,
                                        e8,
                                        ",\"blacklisted_channels\":",
                                    ) {
                                        None => None,
                                        Some(e9) => match parse_u64_list_at(s, e9) {
                                            None => None,
                                            Some((blacklisted_channels, e10)) => match expect_at(
                                                s,
                                                e10,
                                                ",\"pin_channel\":",
                                            ) {
                                                None => None,
                                                Some(e11) => match parse_u64_at(s, e11) {
                                                    None => None,
                                                    Some((pin_channel, e12)) => match expect_at(
                                                        s,
                                                        e12,
                                                        ",\"admins\":",
                                                    ) {
                                                        None => None,
                                                        Some(e13) => match parse_u64_list_at(
                                                            s,
                                                            e13,
                                                        ) {
                                                            None => None,
                                                            Some((admins, e14)) => match expect_at(
                                                                s,
                                                                e14,
                                                                "}",
                                                            ) {
                                                                None => None,
                                                                Some(e15) => Some(
                                                                    (
                                                                        Config {
                                                                            trigger_word,
                                                                            threshold,
                                                                            medals,
                                                                            tater_emoji,
                                                                            blacklisted_channels,
                                                                            pin_channel,
                                                                            admins,
                                                                        },
                                                                        e15,
                                                                    ),
                                                                ),
                                                            },
                                                        },
                                                    },
                                                },
                                            },
                                        },
                                    },
                                },
                            },
                        },
                    },
                },
            },
        },
    }
}

/// Half of the round-trip law: the counters artifact.
#[verifier::spinoff_prover]
#[verifier::rlimit(100)]
proof fn lemma_counters_round_trip(lv: crate::ledger::LedgerView)
    requires
        lv.wf(),
    ensures
        decoded_counters(enc_counters(lv.tatered_messages, lv.taters_got, lv.taters_given))
            == Some((lv.tatered_messages, lv.taters_got, lv.taters_given)),
{
    let t = enc_counters(lv.tatered_messages, lv.taters_got, lv.taters_given);
    assert(t.subrange(0, t.len() as int) =~= t);
    crate::codec::lemma_inv_counters(t, 0, lv.tatered_messages, lv.taters_got, lv.taters_given);
}

/// Half of the round-trip law: the configuration artifact.
#[verifier::spinoff_prover]
#[verifier::rlimit(100)]
proof fn lemma_config_round_trip(lv: crate::ledger::LedgerView)
    requires
        lv.wf(),
    ensures
        decoded_config(enc_config(lv.config)) == Some(lv.config),
{
    let c = enc_config(lv.config);
    assert(c.subrange(0, c.len() as int) =~= c);
    crate::codec::lemma_inv_config(c, 0, lv.config);
}

/// Law: saving a well-formed ledger and loading the two artifacts back
/// restores the configuration and every counter, structurally equal.
pub proof fn lemma_persistence_round_trip(lv: crate::ledger::LedgerView)
    requires
        lv.wf(),
    ensures
        decoded_counters(enc_counters(lv.tatered_messages, lv.taters_got, lv.taters_given))
            == Some((lv.tatered_messages, lv.taters_got, lv.taters_given)),
        decoded_config(enc_config(lv.config)) == Some(lv.config),
{
    lemma_counters_round_trip(lv);
    lemma_config_round_trip(lv);
}

/// Builds a community from its two artifact texts.  A community whose
/// counters or configuration artifact is missing or malformed is not
/// loaded at all: no half-read state, and no default configuration in
/// place of a broken one.
pub fn load_community(counters_text: &Option<String>, config_text: &Option<String>) -> (r: Option<
    LedgerEntity,
>)
    ensures
        r is Some <==> (counters_text is Some && config_text is Some && decoded_counters(
            counters_text->Some_0@,
        ) is Some && decoded_config(config_text->Some_0@) is Some),
        r is Some ==> {
            let (tm, got, given) = decoded_counters(counters_text->Some_0@)->Some_0;
            &&& r->Some_0@.tatered_messages == tm
            &&& r->Some_0@.taters_got == got
            &&& r->Some_0@.taters_given == given
            &&& r->Some_0@.config == decoded_config(config_text->Some_0@)->Some_0
            &&& r->Some_0@.wf()
        },
{
    let counters = match counters_text {
        Some(text) => match parse_counters(text.as_str()) {
            Some(c) => c,
            None => {
                return None;
            },
        },
        None => {
            return None;
        },
    };
    let config = match config_text {
        Some(text) => match parse_config(text.as_str()) {
            Some(c) => c,
            None => {
                return None;
            },
        },
        None => {
            return None;
        },
    };
    let (tatered_messages, taters_got, taters_given) = counters;
    Some(LedgerEntity { config, tatered_messages, taters_got, taters_given })
}

/// The counters artifact's file name for a community.
pub open spec fn taters_filename_text(id: u64) -> Seq<char> {
    dec_digits(id as nat) + "_taters.json"@
}

/// Renders the counters artifact's file name.
pub fn taters_filename(id: u64) -> (s: String)
    ensures
        s@ == taters_filename_text(id),
{
    let mut out: Vec<char> = Vec::new();
    push_dec(&mut out, id);
    push_str_chars(&mut out, "_taters.json");
    proof {
        assert(out@ =~= taters_filename_text(id));
    }
    chars_to_string(&out)
}

/// The configuration artifact's file name for a community.
pub open spec fn config_filename_text(id: u64) -> Seq<char> {
    dec_digits(id as nat) + "_config.json"@
}

/// Renders the configuration artifact's file name.
pub fn config_filename(id: u64) -> (s: String)
    ensures
        s@ == config_filename_text(id),
{
    let mut out: Vec<char> = Vec::new();
    push_dec(&mut out, id);
    push_str_chars(&mut out, "_config.json");
    proof {
        assert(out@ =~= config_filename_text(id));
    }
    chars_to_string(&out)
}

/// The community identifier a stored file stem names: its leading digit
/// run, provided the run is non-empty, fits the machine word, and stops
/// before the stem's end (an all-digit stem names no artifact).
pub open spec fn stem_id(stem: Seq<char>) -> Option<u64> {
    match crate::codec::sp_parse_u64(stem, 0) {
        Some((n, e)) => if e < stem.len() {
            Some(n)
        } else {
            None
        },
        None => None,
    }
}

/// Reads the community identifier out of one stored file stem.
pub fn parse_stem_id(stem: &str) -> (r: Option<u64>)
    ensures
        r == stem_id(stem@),
{
    let chars = str_to_chars(stem);
    match parse_u64_at(&chars, 0) {
        Some((n, e)) => if e < chars.len() {
            Some(n)
        } else {
            None
        },
        None => None,
    }
}

/// The distinct community identifiers named by a directory's file stems.
/// Each community appears once however many of its artifacts are stored.
pub fn discover_ids(stems: &Vec<String>) -> (r: Vec<u64>)
    ensures
        r@.no_duplicates(),
        forall|id: u64|
            r@.contains(id) <==> exists|j: int|
                0 <= j < stems@.len() && stem_id(#[trigger] stems@[j]@) == Some(id),
{
    let mut out: Vec<u64> = Vec::new();
    let mut i: usize = 0;
    while i < stems.len()
        invariant
            i <= stems@.len(),
            out@.no_duplicates(),
            forall|id: u64|
                out@.contains(id) <==> exists|j: int|
                    0 <= j < i && stem_id(#[trigger] stems@[j]@) == Some(id),
        decreases stems@.len() - i,
    {
        match parse_stem_id(stems[i].as_str()) {
            Some(id) => {
                if !crate::assoc::contains_u64(&out, id) {
                    let ghost pre = out@;
                    out.push(id);
                    proof {
                        assert forall|x: u64| out@.contains(x) implies (exists|j: int|
                            0 <= j < i + 1 && stem_id(#[trigger] stems@[j]@) == Some(x)) by {
                            if x == id {
                                assert(stem_id(stems@[i as int]@) == Some(x));
                            } else {
                                assert(pre.contains(x)) by {
                                    let w = choose|w: int| 0 <= w < out@.len() && out@[w] == x;
                                    assert(out@[w] == pre[w]);
                                }
                            }
                        }
                        assert forall|x: u64|
                            (exists|j: int|
                                0 <= j < i + 1 && stem_id(#[trigger] stems@[j]@) == Some(
                                    x,
                                )) implies out@.contains(x) by {
                            if x == id {
                                assert(out@[out@.len() - 1] == id);
                            } else {
                                assert(pre.contains(x));
                                let w = choose|w: int| 0 <= w < pre.len() && pre[w] == x;
                                assert(out@[w] == x);
                            }
                        }
                    }
                } else {
                    proof {
                        assert(stem_id(stems@[i as int]@) == Some(id));
                        assert forall|x: u64|
                            (exists|j: int|
                                0 <= j < i + 1 && stem_id(#[trigger] stems@[j]@) == Some(
                                    x,
                                )) implies out@.contains(x) by {}
                    }
                }
            },
            None => {
                proof {
                    assert forall|x: u64|
                        (exists|j: int|
                            0 <= j < i + 1 && stem_id(#[trigger] stems@[j]@) == Some(
                                x,
                            )) implies out@.contains(x) by {}
                }
            },
        }
        i = i + 1;
    }
    out
}

} // verus!
