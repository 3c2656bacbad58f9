use vstd::prelude::*;
use vstd::string::{StrSliceExecFns, StringExecFns};
use crate::decimal::{
    dec_spec, dec_u128, dec_u64, digit_value, digits_val, is_digit, is_digit_c,
    lemma_dec_spec_digits, lemma_dec_spec_no_leading_zero, lemma_dec_spec_of_digits,
    lemma_digits_val_of_dec, lemma_digits_val_prefix,
};
use crate::errors::TodoError;
use crate::storage::views_of;
use crate::todo::{Priority, Todo, TodoView};

verus! {

// ---------------------------------------------------------------------------
// The persisted text: a pretty-printed array of records, one field per line.
// Every record is written the same way, so whatever the writer produces the
// reader below takes back unchanged (the round-trip lemma).
// ---------------------------------------------------------------------------
pub open spec fn l_empty() -> Seq<char> {
    "[]"@
}

pub open spec fn l_open() -> Seq<char> {
    "[\n"@
}

pub open spec fn l_sep() -> Seq<char> {
    ",\n"@
}

pub open spec fn l_close() -> Seq<char> {
    "\n]"@
}

pub open spec fn l_rec_open() -> Seq<char> {
    "  {\n    \"id\": \""@
}

pub open spec fn l_title() -> Seq<char> {
    "\",\n    \"title\": \""@
}

pub open spec fn l_desc() -> Seq<char> {
    ",\n    \"description\": "@
}

pub open spec fn l_null() -> Seq<char> {
    "null"@
}

pub open spec fn l_quote() -> Seq<char> {
    "\""@
}

pub open spec fn l_completed() -> Seq<char> {
    ",\n    \"completed\": "@
}

pub open spec fn l_true() -> Seq<char> {
    "true"@
}

pub open spec fn l_false() -> Seq<char> {
    "false"@
}

pub open spec fn l_created() -> Seq<char> {
    ",\n    \"created_at\": \""@
}

pub open spec fn l_updated() -> Seq<char> {
    "\",\n    \"updated_at\": \""@
}

pub open spec fn l_priority() -> Seq<char> {
    "\",\n    \"priority\": \""@
}

pub open spec fn l_low() -> Seq<char> {
    "Low"@
}

pub open spec fn l_medium() -> Seq<char> {
    "Medium"@
}

pub open spec fn l_high() -> Seq<char> {
    "High"@
}

pub open spec fn l_rec_close() -> Seq<char> {
    "\"\n  }"@
}

/// String content as it is written: a quote or a backslash gets a backslash
/// in front, everything else stands as itself.
pub open spec fn escape(s: Seq<char>) -> Seq<char>
    decreases s.len(),
{
    if s.len() == 0 {
        Seq::empty()
    } else {
        (if s[0] == '"' {
            seq!['\\', '"']
        } else if s[0] == '\\' {
            seq!['\\', '\\']
        } else {
            seq![s[0]]
        }) + escape(s.drop_first())
    }
}

pub open spec fn bool_text(b: bool) -> Seq<char> {
    if b {
        l_true()
    } else {
        l_false()
    }
}

pub open spec fn prio_text(p: Priority) -> Seq<char> {
    match p {
        Priority::Low => l_low(),
        Priority::Medium => l_medium(),
        Priority::High => l_high(),
    }
}

pub open spec fn desc_text(d: Option<Seq<char>>) -> Seq<char> {
    match d {
        None => l_null(),
        Some(s) => l_quote() + escape(s) + l_quote(),
    }
}

/// One record as it is written.
pub open spec fn record_text(t: TodoView) -> Seq<char> {
    l_rec_open() + dec_spec(t.id as nat) + l_title() + escape(t.title) + l_quote() + l_desc()
        + desc_text(t.description) + l_completed() + bool_text(t.completed) + l_created()
        + dec_spec(t.created_at as nat) + l_updated() + dec_spec(t.updated_at as nat)
        + l_priority() + prio_text(t.priority) + l_rec_close()
}

/// The records joined by the separator.
pub open spec fn records_text(ts: Seq<TodoView>) -> Seq<char>
    decreases ts.len(),
{
    if ts.len() == 0 {
        Seq::empty()
    } else if ts.len() == 1 {
        record_text(ts[0])
    } else {
        record_text(ts[0]) + l_sep() + records_text(ts.drop_first())
    }
}

/// The whole file: the empty collection is the bare empty array, anything
/// else is the bracketed, separated record list.
pub open spec fn render_spec(ts: Seq<TodoView>) -> Seq<char> {
    if ts.len() == 0 {
        l_empty()
    } else {
        l_open() + records_text(ts) + l_close()
    }
}

// ---------------------------------------------------------------------------
// The grammar, read as a deterministic recursive descent: each step hands
// back what it read and the text that remains.
// ---------------------------------------------------------------------------
/// Reads the exact literal `l`, or nothing.
pub open spec fn sp_lit(s: Seq<char>, l: Seq<char>) -> Option<Seq<char>> {
    if l.is_prefix_of(s) {
        Some(s.skip(l.len() as int))
    } else {
        None
    }
}

/// Reads escaped string content up to and through the closing quote.
pub open spec fn sp_str_body(s: Seq<char>) -> Option<(Seq<char>, Seq<char>)>
    decreases s.len(),
{
    if s.len() == 0 {
        None
    } else if s[0] == '"' {
        Some((Seq::empty(), s.drop_first()))
    } else if s[0] == '\\' {
        if s.len() >= 2 && (s[1] == '"' || s[1] == '\\') {
            match sp_str_body(s.skip(2)) {
                Some(p) => Some((seq![s[1]] + p.0, p.1)),
                None => None,
            }
        } else {
            None
        }
    } else {
        match sp_str_body(s.drop_first()) {
            Some(p) => Some((seq![s[0]] + p.0, p.1)),
            None => None,
        }
    }
}

/// The longest digit prefix, and what follows it.
pub open spec fn take_digits(s: Seq<char>) -> (Seq<char>, Seq<char>)
    decreases s.len(),
{
    if s.len() > 0 && is_digit_c(s[0]) {
        let p = take_digits(s.drop_first());
        (seq![s[0]] + p.0, p.1)
    } else {
        (Seq::empty(), s)
    }
}

/// Reads a number: at least one digit, no superfluous leading zero, and a
/// value within `max`.
pub open spec fn sp_number(s: Seq<char>, max: nat) -> Option<(nat, Seq<char>)> {
    let p = take_digits(s);
    if p.0.len() == 0 {
        None
    } else if p.0.len() > 1 && p.0[0] == '0' {
        None
    } else if digits_val(p.0) > max {
        None
    } else {
        Some((digits_val(p.0), p.1))
    }
}

/// Reads a description: `null`, or a quoted string.
pub open spec fn sp_desc(s: Seq<char>) -> Option<(Option<Seq<char>>, Seq<char>)> {
    if l_null().is_prefix_of(s) {
        Some((None, s.skip(l_null().len() as int)))
    } else if s.len() > 0 && s[0] == '"' {
        match sp_str_body(s.drop_first()) {
            Some(p) => Some((Some(p.0), p.1)),
            None => None,
        }
    } else {
        None
    }
}

/// Reads a completion flag.
pub open spec fn sp_bool(s: Seq<char>) -> Option<(bool, Seq<char>)> {
    if l_true().is_prefix_of(s) {
        Some((true, s.skip(l_true().len() as int)))
    } else if l_false().is_prefix_of(s) {
        Some((false, s.skip(l_false().len() as int)))
    } else {
        None
    }
}

/// Reads a priority tag.
pub open spec fn sp_prio(s: Seq<char>) -> Option<(Priority, Seq<char>)> {
    if l_low().is_prefix_of(s) {
        Some((Priority::Low, s.skip(l_low().len() as int)))
    } else if l_medium().is_prefix_of(s) {
        Some((Priority::Medium, s.skip(l_medium().len() as int)))
    } else if l_high().is_prefix_of(s) {
        Some((Priority::High, s.skip(l_high().len() as int)))
    } else {
        None
    }
}

/// Reads one record.
pub open spec fn sp_record(s: Seq<char>) -> Option<(TodoView, Seq<char>)> {
    match sp_lit(s, l_rec_open()) {
        None => None,
        Some(s1) => match sp_number(s1, u128::MAX as nat) {
            None => None,
            Some((idv, s2)) => match sp_lit(s2, l_title()) {
                None => None,
                Some(s3) => match sp_str_body(s3) {
                    None => None,
                    Some((title, s4)) => match sp_lit(s4, l_desc()) {
                        None => None,
                        Some(s5) => match sp_desc(s5) {
                            None => None,
                            Some((desc, s6)) => match sp_lit(s6, l_completed()) {
                                None => None,
                                Some(s7) => match sp_bool(s7) {
                                    None => None,
                                    Some((comp, s8)) => match sp_lit(s8, l_created()) {
                                        None => None,
                                        Some(s9) => match sp_number(s9, u64::MAX as nat) {
                                            None => None,
                                            Some((cr, s10)) => match sp_lit(s10, l_updated()) {
                                                None => None,
                                                Some(s11) => match sp_number(
                                                    s11,
                                                    u64::MAX as nat,
                                                ) {
                                                    None => None,
                                                    Some((up, s12)) => match sp_lit(
                                                        s12,
                                                        l_priority(),
                                                    ) {
                                                        None => None,
                                                        Some(s13) => match sp_prio(s13) {
                                                            None => None,
                                                            Some((pr, s14)) => match sp_lit(
                                                                s14,
                                                                l_rec_close(),
                                                            ) {
                                                                None => None,
                                                                Some(s15) => Some(
                                                                    (
                                                                        TodoView {
                                                                            id: idv as u128,
                                                                            title,
                                                                            description: desc,
                                                                            completed: comp,
                                                                            created_at: cr as u64,
                                                                            updated_at: up as u64,
                                                                            priority: pr,
                                                                        },
                                                                        s15,
                                                                    ),
                                                                ),
                                                            },
                                                        },
                                                    },
                                                },
                                            },
                                        },
                                    },
                                },
                            },
                        },
                    },
                },
            },
        },
    }
}

/// Reads one or more separated records.
pub open spec fn sp_records(s: Seq<char>) -> Option<(Seq<TodoView>, Seq<char>)>
    decreases s.len(),
{
    match sp_record(s) {
        None => None,
        Some((t, r)) => match sp_lit(r, l_sep()) {
            None => Some((seq![t], r)),
            Some(r2) => if r2.len() < s.len() {
                match sp_records(r2) {
                    None => None,
                    Some((ts, r3)) => Some((seq![t] + ts, r3)),
                }
            } else {
                None
            },
        },
    }
}

/// The whole file, or nothing. The accepted texts are exactly the
/// renderer's outputs: the round-trip lemma gives one inclusion, the
/// canonicity lemma the other.
pub open spec fn parse_spec(s: Seq<char>) -> Option<Seq<TodoView>> {
    if s == l_empty() {
        Some(Seq::empty())
    } else {
        match sp_lit(s, l_open()) {
            None => None,
            Some(s1) => match sp_records(s1) {
                None => None,
                Some((ts, r)) => if r == l_close() {
                    Some(ts)
                } else {
                    None
                },
            },
        }
    }
}

// ---------------------------------------------------------------------------
// Round trip: reading back what was written gives back what was there.
// ---------------------------------------------------------------------------
proof fn lemma_lit_round(l: Seq<char>, rest: Seq<char>)
    ensures
        sp_lit(l + rest, l) == Some(rest),
{
    let s = l + rest;
    assert(s.subrange(0, l.len() as int) =~= l);
    assert(l.is_prefix_of(s));
    assert(s.skip(l.len() as int) =~= rest);
}

proof fn lemma_lit_fail(s: Seq<char>, l: Seq<char>)
    requires
        l.len() > 0,
        s.len() == 0 || s[0] != l[0],
    ensures
        sp_lit(s, l) is None,
{
    if l.is_prefix_of(s) {
        assert(s.subrange(0, l.len() as int)[0] == s[0]);
    }
}

proof fn lemma_escape_round(t: Seq<char>, rest: Seq<char>)
    ensures
        sp_str_body(escape(t) + (l_quote() + rest)) == Some((t, rest)),
    decreases t.len(),
{
    reveal_strlit("\"");
    let s = escape(t) + (l_quote() + rest);
    if t.len() == 0 {
        assert(escape(t) =~= Seq::<char>::empty());
        assert(s =~= l_quote() + rest);
        assert(s[0] == '"');
        assert(s.drop_first() =~= rest);
    } else {
        let c = t[0];
        lemma_escape_round(t.drop_first(), rest);
        let s_rec = escape(t.drop_first()) + (l_quote() + rest);
        if c == '"' {
            assert(escape(t) =~= seq!['\\', '"'] + escape(t.drop_first()));
            assert(s =~= seq!['\\', '"'] + s_rec);
            assert(s[0] == '\\' && s[1] == '"');
            assert(s.skip(2) =~= s_rec);
            assert(seq![s[1]] + t.drop_first() =~= t);
        } else if c == '\\' {
            assert(escape(t) =~= seq!['\\', '\\'] + escape(t.drop_first()));
            assert(s =~= seq!['\\', '\\'] + s_rec);
            assert(s[0] == '\\' && s[1] == '\\');
            assert(s.skip(2) =~= s_rec);
            assert(seq![s[1]] + t.drop_first() =~= t);
        } else {
            assert(escape(t) =~= seq![c] + escape(t.drop_first()));
            assert(s =~= seq![c] + s_rec);
            assert(s[0] == c);
            assert(s.drop_first() =~= s_rec);
            assert(seq![t[0]] + t.drop_first() =~= t);
        }
    }
}

proof fn lemma_take_digits_all(ds: Seq<char>, rest: Seq<char>)
    requires
        forall|i: int| 0 <= i < ds.len() ==> is_digit_c(#[trigger] ds[i]),
        rest.len() > 0,
        !is_digit_c(rest[0]),
    ensures
        take_digits(ds + rest) == (ds, rest),
    decreases ds.len(),
{
    let s = ds + rest;
    if ds.len() == 0 {
        assert(s =~= rest);
        assert(take_digits(s).0 =~= ds);
    } else {
        lemma_take_digits_all(ds.drop_first(), rest);
        assert(s[0] == ds[0]);
        assert(s.drop_first() =~= ds.drop_first() + rest);
        assert(seq![ds[0]] + ds.drop_first() =~= ds);
    }
}

proof fn lemma_number_round(n: nat, max: nat, rest: Seq<char>)
    requires
        n <= max,
        rest.len() > 0,
        !is_digit_c(rest[0]),
    ensures
        sp_number(dec_spec(n) + rest, max) == Some((n, rest)),
{
    lemma_dec_spec_digits(n);
    lemma_dec_spec_no_leading_zero(n);
    lemma_take_digits_all(dec_spec(n), rest);
    lemma_digits_val_of_dec(n);
}

proof fn lemma_desc_round(d: Option<Seq<char>>, rest: Seq<char>)
    ensures
        sp_desc(desc_text(d) + rest) == Some((d, rest)),
{
    reveal_strlit("null");
    reveal_strlit("\"");
    let s = desc_text(d) + rest;
    match d {
        None => {
            assert(s =~= l_null() + rest);
            lemma_lit_round(l_null(), rest);
            assert(l_null().is_prefix_of(s));
            assert(s.skip(l_null().len() as int) =~= rest);
        },
        Some(t) => {
            assert(s =~= l_quote() + (escape(t) + (l_quote() + rest)));
            assert(s[0] == '"');
            if l_null().is_prefix_of(s) {
                assert(s.subrange(0, l_null().len() as int)[0] == s[0]);
            }
            assert(!l_null().is_prefix_of(s));
            assert(s.drop_first() =~= escape(t) + (l_quote() + rest));
            lemma_escape_round(t, rest);
        },
    }
}

proof fn lemma_bool_round(b: bool, rest: Seq<char>)
    ensures
        sp_bool(bool_text(b) + rest) == Some((b, rest)),
{
    reveal_strlit("true");
    reveal_strlit("false");
    let s = bool_text(b) + rest;
    if b {
        lemma_lit_round(l_true(), rest);
    } else {
        assert(s[0] == 'f');
        if l_true().is_prefix_of(s) {
            assert(s.subrange(0, l_true().len() as int)[0] == s[0]);
        }
        lemma_lit_round(l_false(), rest);
    }
}

proof fn lemma_prio_round(p: Priority, rest: Seq<char>)
    ensures
        sp_prio(prio_text(p) + rest) == Some((p, rest)),
{
    reveal_strlit("Low");
    reveal_strlit("Medium");
    reveal_strlit("High");
    let s = prio_text(p) + rest;
    match p {
        Priority::Low => {
            lemma_lit_round(l_low(), rest);
        },
        Priority::Medium => {
            assert(s[0] == 'M');
            if l_low().is_prefix_of(s) {
                assert(s.subrange(0, l_low().len() as int)[0] == s[0]);
            }
            lemma_lit_round(l_medium(), rest);
        },
        Priority::High => {
            assert(s[0] == 'H');
            if l_low().is_prefix_of(s) {
                assert(s.subrange(0, l_low().len() as int)[0] == s[0]);
            }
            if l_medium().is_prefix_of(s) {
                assert(s.subrange(0, l_medium().len() as int)[0] == s[0]);
            }
            lemma_lit_round(l_high(), rest);
        },
    }
}

/// The record text, re-associated so that each component can be peeled off
/// the front in turn.
pub open spec fn record_tail(t: TodoView, rest: Seq<char>) -> Seq<char> {
    dec_spec(t.id as nat) + (l_title() + (escape(t.title) + (l_quote() + (l_desc() + (desc_text(
        t.description,
    ) + (l_completed() + (bool_text(t.completed) + (l_created() + (dec_spec(t.created_at as nat)
        + (l_updated() + (dec_spec(t.updated_at as nat) + (l_priority() + (prio_text(t.priority)
        + (l_rec_close() + rest))))))))))))))
}

#[verifier::rlimit(100)]
proof fn lemma_record_text_unroll(t: TodoView, rest: Seq<char>)
    ensures
        record_text(t) + rest == l_rec_open() + record_tail(t, rest),
{
    let c1 = l_rec_open();
    let c2 = dec_spec(t.id as nat);
    let c3 = l_title();
    let c4 = escape(t.title);
    let c5 = l_quote();
    let c6 = l_desc();
    let c7 = desc_text(t.description);
    let c8 = l_completed();
    let c9 = bool_text(t.completed);
    let c10 = l_created();
    let c11 = dec_spec(t.created_at as nat);
    let c12 = l_updated();
    let c13 = dec_spec(t.updated_at as nat);
    let c14 = l_priority();
    let c15 = prio_text(t.priority);
    let c16 = l_rec_close();
    let r16 = rest;
    let r15 = c16 + r16;
    let r14 = c15 + r15;
    let r13 = c14 + r14;
    let r12 = c13 + r13;
    let r11 = c12 + r12;
    let r10 = c11 + r11;
    let r9 = c10 + r10;
    let r8 = c9 + r9;
    let r7 = c8 + r8;
    let r6 = c7 + r7;
    let r5 = c6 + r6;
    let r4 = c5 + r5;
    let r3 = c4 + r4;
    let r2 = c3 + r3;
    let r1 = c2 + r2;
    let p2 = c1 + c2;
    let p3 = p2 + c3;
    let p4 = p3 + c4;
    let p5 = p4 + c5;
    let p6 = p5 + c6;
    let p7 = p6 + c7;
    let p8 = p7 + c8;
    let p9 = p8 + c9;
    let p10 = p9 + c10;
    let p11 = p10 + c11;
    let p12 = p11 + c12;
    let p13 = p12 + c13;
    let p14 = p13 + c14;
    let p15 = p14 + c15;
    let p16 = p15 + c16;
    assert(p16 + r16 =~= p15 + r15);
    assert(p15 + r15 =~= p14 + r14);
    assert(p14 + r14 =~= p13 + r13);
    assert(p13 + r13 =~= p12 + r12);
    assert(p12 + r12 =~= p11 + r11);
    assert(p11 + r11 =~= p10 + r10);
    assert(p10 + r10 =~= p9 + r9);
    assert(p9 + r9 =~= p8 + r8);
    assert(p8 + r8 =~= p7 + r7);
    assert(p7 + r7 =~= p6 + r6);
    assert(p6 + r6 =~= p5 + r5);
    assert(p5 + r5 =~= p4 + r4);
    assert(p4 + r4 =~= p3 + r3);
    assert(p3 + r3 =~= p2 + r2);
    assert(p2 + r2 =~= c1 + r1);
    assert(record_text(t) == p16);
    assert(record_tail(t, rest) == r1);
}

#[verifier::rlimit(100)]
proof fn lemma_record_round(t: TodoView, rest: Seq<char>)
    ensures
        sp_record(record_text(t) + rest) == Some((t, rest)),
{
    reveal_strlit("  {\n    \"id\": \"");
    reveal_strlit("\",\n    \"title\": \"");
    reveal_strlit(",\n    \"description\": ");
    reveal_strlit(",\n    \"completed\": ");
    reveal_strlit(",\n    \"created_at\": \"");
    reveal_strlit("\",\n    \"updated_at\": \"");
    reveal_strlit("\",\n    \"priority\": \"");
    reveal_strlit("\"\n  }");
    reveal_strlit("\"");
    let c1 = l_rec_open();
    let c2 = dec_spec(t.id as nat);
    let c3 = l_title();
    let c4 = escape(t.title);
    let c5 = l_quote();
    let c6 = l_desc();
    let c7 = desc_text(t.description);
    let c8 = l_completed();
    let c9 = bool_text(t.completed);
    let c10 = l_created();
    let c11 = dec_spec(t.created_at as nat);
    let c12 = l_updated();
    let c13 = dec_spec(t.updated_at as nat);
    let c14 = l_priority();
    let c15 = prio_text(t.priority);
    let c16 = l_rec_close();
    let r16 = rest;
    let r15 = c16 + r16;
    let r14 = c15 + r15;
    let r13 = c14 + r14;
    let r12 = c13 + r13;
    let r11 = c12 + r12;
    let r10 = c11 + r11;
    let r9 = c10 + r10;
    let r8 = c9 + r9;
    let r7 = c8 + r8;
    let r6 = c7 + r7;
    let r5 = c6 + r6;
    let r4 = c5 + r5;
    let r3 = c4 + r4;
    let r2 = c3 + r3;
    let r1 = c2 + r2;
    let s = record_text(t) + rest;
    lemma_record_text_unroll(t, rest);
    assert(record_tail(t, rest) == r1);
    assert(s == c1 + r1);
    lemma_lit_round(c1, r1);
    assert(sp_lit(s, l_rec_open()) == Some(r1));
    // the id digits end at the quote opening the title key
    assert(r2[0] == '"');
    lemma_number_round(t.id as nat, u128::MAX as nat, r2);
    lemma_lit_round(c3, r3);
    // the title's characters run up to and through its closing quote
    assert(r3 =~= c4 + (l_quote() + r5));
    lemma_escape_round(t.title, r5);
    lemma_lit_round(c6, r6);
    lemma_desc_round(t.description, r7);
    lemma_lit_round(c8, r8);
    lemma_bool_round(t.completed, r9);
    lemma_lit_round(c10, r10);
    assert(r11[0] == '"');
    lemma_number_round(t.created_at as nat, u64::MAX as nat, r11);
    lemma_lit_round(c12, r12);
    assert(r13[0] == '"');
    lemma_number_round(t.updated_at as nat, u64::MAX as nat, r13);
    lemma_lit_round(c14, r14);
    lemma_prio_round(t.priority, r15);
    lemma_lit_round(c16, r16);
    assert(sp_record(s) == Some(
        (
            TodoView {
                id: (t.id as nat) as u128,
                title: t.title,
                description: t.description,
                completed: t.completed,
                created_at: (t.created_at as nat) as u64,
                updated_at: (t.updated_at as nat) as u64,
                priority: t.priority,
            },
            rest,
        ),
    ));
    assert((t.id as nat) as u128 == t.id);
    assert(sp_record(s) == Some((t, rest)));
}

proof fn lemma_record_text_len(t: TodoView)
    ensures
        record_text(t).len() > 0,
{
    reveal_strlit("  {\n    \"id\": \"");
}

#[verifier::rlimit(60)]
proof fn lemma_records_round(ts: Seq<TodoView>, rest: Seq<char>)
    requires
        ts.len() > 0,
        rest.len() > 0,
        rest[0] == '\n',
    ensures
        sp_records(records_text(ts) + rest) == Some((ts, rest)),
    decreases ts.len(),
{
    reveal_strlit(",\n");
    let s = records_text(ts) + rest;
    if ts.len() == 1 {
        lemma_record_round(ts[0], rest);
        lemma_lit_fail(rest, l_sep());
        assert(seq![ts[0]] =~= ts);
    } else {
        let tail = records_text(ts.drop_first());
        let mid = l_sep() + (tail + rest);
        assert((record_text(ts[0]) + l_sep() + tail) + rest =~= record_text(ts[0]) + mid);
        assert(s =~= record_text(ts[0]) + mid);
        lemma_record_round(ts[0], mid);
        lemma_lit_round(l_sep(), tail + rest);
        lemma_record_text_len(ts[0]);
        lemma_records_round(ts.drop_first(), rest);
        assert(seq![ts[0]] + ts.drop_first() =~= ts);
    }
}

/// Round trip: reading the rendered collection back gives exactly the
/// collection that was written, record for record and field for field.
pub proof fn lemma_parse_render_round_trip(ts: Seq<TodoView>)
    ensures
        parse_spec(render_spec(ts)) == Some(ts),
{
    reveal_strlit("[]");
    reveal_strlit("[\n");
    reveal_strlit("\n]");
    if ts.len() == 0 {
    } else {
        let s = render_spec(ts);
        lemma_record_text_len(ts[0]);
        assert(records_text(ts).len() > 0);
        assert((l_open() + records_text(ts) + l_close()) + Seq::<char>::empty() =~= l_open() + (
        records_text(ts) + l_close()));
        assert(s =~= l_open() + (records_text(ts) + l_close()));
        assert(s[1] == '\n');
        assert(l_empty()[1] == ']');
        assert(s != l_empty());
        lemma_lit_round(l_open(), records_text(ts) + l_close());
        assert(l_close()[0] == '\n');
        lemma_records_round(ts, l_close());
    }
}

// ---------------------------------------------------------------------------
// Canonicity: whatever the grammar accepts is, character for character, the
// writer's output for the collection it read. Together with the round trip
// this makes the accepted language exactly the writer's image.
// ---------------------------------------------------------------------------
proof fn lemma_lit_sound(s: Seq<char>, l: Seq<char>, r: Seq<char>)
    requires
        sp_lit(s, l) == Some(r),
    ensures
        s == l + r,
{
    assert(s =~= s.subrange(0, l.len() as int) + s.skip(l.len() as int));
    assert(l + r =~= s.subrange(0, l.len() as int) + s.skip(l.len() as int));
}

proof fn lemma_str_body_sound(s: Seq<char>, t: Seq<char>, r: Seq<char>)
    requires
        sp_str_body(s) == Some((t, r)),
    ensures
        s == escape(t) + (l_quote() + r),
    decreases s.len(),
{
    reveal_strlit("\"");
    if s[0] == '"' {
        assert(t =~= Seq::<char>::empty());
        assert(escape(t) =~= Seq::<char>::empty());
        assert(s =~= seq![s[0]] + s.drop_first());
        assert(escape(t) + (l_quote() + r) =~= seq!['"'] + r);
    } else if s[0] == '\\' {
        match sp_str_body(s.skip(2)) {
            Some(p) => {
                assert(t == seq![s[1]] + p.0);
                assert(t.drop_first() =~= p.0);
                lemma_str_body_sound(s.skip(2), p.0, r);
                assert(t[0] == s[1]);
                assert(escape(t) =~= seq!['\\', t[0]] + escape(t.drop_first()));
                assert(s =~= seq![s[0], s[1]] + s.skip(2));
                assert(escape(t) + (l_quote() + r) =~= seq!['\\', s[1]] + (escape(p.0) + (
                l_quote() + r)));
            },
            None => {
                assert(false);
            },
        }
    } else {
        match sp_str_body(s.drop_first()) {
            Some(p) => {
                assert(t == seq![s[0]] + p.0);
                assert(t.drop_first() =~= p.0);
                lemma_str_body_sound(s.drop_first(), p.0, r);
                assert(t[0] == s[0]);
                assert(escape(t) =~= seq![t[0]] + escape(t.drop_first()));
                assert(s =~= seq![s[0]] + s.drop_first());
                assert(escape(t) + (l_quote() + r) =~= seq![s[0]] + (escape(p.0) + (l_quote()
                    + r)));
            },
            None => {
                assert(false);
            },
        }
    }
}

proof fn lemma_take_digits_split(s: Seq<char>)
    ensures
        s == take_digits(s).0 + take_digits(s).1,
        forall|i: int|
            0 <= i < take_digits(s).0.len() ==> is_digit_c(#[trigger] take_digits(s).0[i]),
    decreases s.len(),
{
    if s.len() > 0 && is_digit_c(s[0]) {
        lemma_take_digits_split(s.drop_first());
        let p = take_digits(s.drop_first());
        assert(s =~= seq![s[0]] + s.drop_first());
        assert((seq![s[0]] + p.0) + p.1 =~= seq![s[0]] + (p.0 + p.1));
        assert(take_digits(s).0 + take_digits(s).1 =~= s);
    } else {
        assert(take_digits(s).0 + take_digits(s).1 =~= s);
    }
}

proof fn lemma_number_sound(s: Seq<char>, max: nat, n: nat, r: Seq<char>)
    requires
        sp_number(s, max) == Some((n, r)),
    ensures
        s == dec_spec(n) + r,
{
    lemma_take_digits_split(s);
    let ds = take_digits(s).0;
    lemma_dec_spec_of_digits(ds);
}

proof fn lemma_desc_sound(s: Seq<char>, d: Option<Seq<char>>, r: Seq<char>)
    requires
        sp_desc(s) == Some((d, r)),
    ensures
        s == desc_text(d) + r,
{
    reveal_strlit("null");
    reveal_strlit("\"");
    if l_null().is_prefix_of(s) {
        lemma_lit_sound(s, l_null(), r);
    } else {
        match sp_str_body(s.drop_first()) {
            Some(p) => {
                assert(d == Some(p.0));
                lemma_str_body_sound(s.drop_first(), p.0, r);
                assert(s =~= seq![s[0]] + s.drop_first());
                assert(desc_text(d) + r =~= seq!['"'] + (escape(p.0) + (l_quote() + r)));
            },
            None => {
                assert(false);
            },
        }
    }
}

proof fn lemma_bool_sound(s: Seq<char>, b: bool, r: Seq<char>)
    requires
        sp_bool(s) == Some((b, r)),
    ensures
        s == bool_text(b) + r,
{
    if l_true().is_prefix_of(s) {
        lemma_lit_sound(s, l_true(), r);
    } else {
        lemma_lit_sound(s, l_false(), r);
    }
}

proof fn lemma_prio_sound(s: Seq<char>, p: Priority, r: Seq<char>)
    requires
        sp_prio(s) == Some((p, r)),
    ensures
        s == prio_text(p) + r,
{
    if l_low().is_prefix_of(s) {
        lemma_lit_sound(s, l_low(), r);
    } else if l_medium().is_prefix_of(s) {
        lemma_lit_sound(s, l_medium(), r);
    } else {
        lemma_lit_sound(s, l_high(), r);
    }
}

#[verifier::rlimit(100)]
proof fn lemma_record_sound(s: Seq<char>, t: TodoView, rest: Seq<char>)
    requires
        sp_record(s) == Some((t, rest)),
    ensures
        s == record_text(t) + rest,
{
    let s1 = match sp_lit(s, l_rec_open()) {
        Some(x) => x,
        None => arbitrary(),
    };
    lemma_lit_sound(s, l_rec_open(), s1);
    let (idn, s2) = match sp_number(s1, u128::MAX as nat) {
        Some(x) => x,
        None => arbitrary(),
    };
    lemma_number_sound(s1, u128::MAX as nat, idn, s2);
    let s3 = match sp_lit(s2, l_title()) {
        Some(x) => x,
        None => arbitrary(),
    };
    lemma_lit_sound(s2, l_title(), s3);
    let (title, s4) = match sp_str_body(s3) {
        Some(x) => x,
        None => arbitrary(),
    };
    lemma_str_body_sound(s3, title, s4);
    let s5 = match sp_lit(s4, l_desc()) {
        Some(x) => x,
        None => arbitrary(),
    };
    lemma_lit_sound(s4, l_desc(), s5);
    let (desc, s6) = match sp_desc(s5) {
        Some(x) => x,
        None => arbitrary(),
    };
    lemma_desc_sound(s5, desc, s6);
    let s7 = match sp_lit(s6, l_completed()) {
        Some(x) => x,
        None => arbitrary(),
    };
    lemma_lit_sound(s6, l_completed(), s7);
    let (comp, s8) = match sp_bool(s7) {
        Some(x) => x,
        None => arbitrary(),
    };
    lemma_bool_sound(s7, comp, s8);
    let s9 = match sp_lit(s8, l_created()) {
        Some(x) => x,
        None => arbitrary(),
    };
    lemma_lit_sound(s8, l_created(), s9);
    let (cr, s10) = match sp_number(s9, u64::MAX as nat) {
        Some(x) => x,
        None => arbitrary(),
    };
    lemma_number_sound(s9, u64::MAX as nat, cr, s10);
    let s11 = match sp_lit(s10, l_updated()) {
        Some(x) => x,
        None => arbitrary(),
    };
    lemma_lit_sound(s10, l_updated(), s11);
    let (up, s12) = match sp_number(s11, u64::MAX as nat) {
        Some(x) => x,
        None => arbitrary(),
    };
    lemma_number_sound(s11, u64::MAX as nat, up, s12);
    let s13 = match sp_lit(s12, l_priority()) {
        Some(x) => x,
        None => arbitrary(),
    };
    lemma_lit_sound(s12, l_priority(), s13);
    let (pr, s14) = match sp_prio(s13) {
        Some(x) => x,
        None => arbitrary(),
    };
    lemma_prio_sound(s13, pr, s14);
    let s15 = match sp_lit(s14, l_rec_close()) {
        Some(x) => x,
        None => arbitrary(),
    };
    lemma_lit_sound(s14, l_rec_close(), s15);
    assert(s15 == rest);
    assert(t.id == idn as u128 && t.title == title && t.description == desc && t.completed == comp
        && t.created_at == cr as u64 && t.updated_at == up as u64 && t.priority == pr);
    assert(idn <= u128::MAX as nat && cr <= u64::MAX as nat && up <= u64::MAX as nat);
    assert(dec_spec(t.id as nat) == dec_spec(idn));
    assert(dec_spec(t.created_at as nat) == dec_spec(cr));
    assert(dec_spec(t.updated_at as nat) == dec_spec(up));
    let c1 = l_rec_open();
    let c2 = dec_spec(t.id as nat);
    let c3 = l_title();
    let c4 = escape(t.title);
    let c5 = l_quote();
    let c6 = l_desc();
    let c7 = desc_text(t.description);
    let c8 = l_completed();
    let c9 = bool_text(t.completed);
    let c10 = l_created();
    let c11 = dec_spec(t.created_at as nat);
    let c12 = l_updated();
    let c13 = dec_spec(t.updated_at as nat);
    let c14 = l_priority();
    let c15 = prio_text(t.priority);
    let c16 = l_rec_close();
    let r16 = rest;
    let r15 = c16 + r16;
    let r14 = c15 + r15;
    let r13 = c14 + r14;
    let r12 = c13 + r13;
    let r11 = c12 + r12;
    let r10 = c11 + r11;
    let r9 = c10 + r10;
    let r8 = c9 + r9;
    let r7 = c8 + r8;
    let r6 = c7 + r7;
    let r5 = c6 + r6;
    let r4 = c5 + r5;
    let r3 = c4 + r4;
    let r2 = c3 + r3;
    let r1 = c2 + r2;
    assert(s14 == r15);
    assert(s13 == r14);
    assert(s12 == r13);
    assert(s11 == r12);
    assert(s10 == r11);
    assert(s9 == r10);
    assert(s8 == r9);
    assert(s7 == r8);
    assert(s6 == r7);
    assert(s5 == r6);
    assert(s4 == r5);
    assert(l_quote() + s4 == r4);
    assert(s3 == c4 + r4);
    assert(s3 == r3);
    assert(s2 == r2);
    assert(s1 == r1);
    assert(s == c1 + r1);
    lemma_record_text_unroll(t, rest);
    assert(record_tail(t, rest) == r1);
    assert(record_text(t) + rest == s);
}

proof fn lemma_records_sound(s: Seq<char>, ts: Seq<TodoView>, r: Seq<char>)
    requires
        sp_records(s) == Some((ts, r)),
    ensures
        s == records_text(ts) + r,
        ts.len() >= 1,
    decreases s.len(),
{
    match sp_record(s) {
        Some((t, r1)) => {
            lemma_record_sound(s, t, r1);
            match sp_lit(r1, l_sep()) {
                None => {
                    assert(ts == seq![t] && r == r1);
                    assert(ts[0] == t);
                    assert(records_text(ts) == record_text(t));
                },
                Some(r2) => {
                    lemma_lit_sound(r1, l_sep(), r2);
                    match sp_records(r2) {
                        Some((ts2, r3)) => {
                            assert(ts == seq![t] + ts2 && r == r3);
                            lemma_records_sound(r2, ts2, r3);
                            assert(ts.len() >= 2);
                            assert(ts[0] == t);
                            assert(ts.drop_first() =~= ts2);
                            assert(records_text(ts) == record_text(t) + l_sep() + records_text(
                                ts2,
                            ));
                            assert((record_text(t) + l_sep() + records_text(ts2)) + r3 =~=
                            record_text(t) + (l_sep() + (records_text(ts2) + r3)));
                        },
                        None => {
                            assert(false);
                        },
                    }
                },
            }
        },
        None => {
            assert(false);
        },
    }
}

/// Canonicity: whatever the reader accepts is, character for character, the
/// writer's output for the collection it read. Together with the round-trip
/// lemma, the accepted texts are exactly the writer's outputs.
pub proof fn lemma_parse_canonical(s: Seq<char>, ts: Seq<TodoView>)
    requires
        parse_spec(s) == Some(ts),
    ensures
        s == render_spec(ts),
{
    if s == l_empty() {
        assert(ts =~= Seq::<TodoView>::empty());
    } else {
        let s1 = match sp_lit(s, l_open()) {
            Some(x) => x,
            None => arbitrary(),
        };
        lemma_lit_sound(s, l_open(), s1);
        match sp_records(s1) {
            Some((ts2, r)) => {
                assert(ts2 == ts && r == l_close());
                lemma_records_sound(s1, ts, r);
                assert(render_spec(ts) == l_open() + records_text(ts) + l_close());
                assert((l_open() + records_text(ts) + l_close()) =~= l_open() + (records_text(ts)
                    + l_close()));
            },
            None => {
                assert(false);
            },
        }
    }
}

// ---------------------------------------------------------------------------
// The writer.
// ---------------------------------------------------------------------------
fn escaped_string(s: &str, i: usize) -> (out: String)
    requires
        i <= s@.len(),
    ensures
        out@ == escape(s@.skip(i as int)),
    decreases s@.len() - i,
{
    let n = s.unicode_len();
    if i >= n {
        proof {
            assert(s@.skip(i as int) =~= Seq::<char>::empty());
        }
        String::new()
    } else {
        let c = s.get_char(i);
        let rest = escaped_string(s, i + 1);
        let mut out = String::new();
        if c == '"' {
            out.push('\\');
            out.push('"');
        } else if c == '\\' {
            out.push('\\');
            out.push('\\');
        } else {
            out.push(c);
        }
        out.append(rest.as_str());
        proof {
            let tail = s@.skip(i as int);
            assert(tail[0] == s@[i as int]);
            assert(tail.drop_first() =~= s@.skip(i as int + 1));
            if c == '"' {
                assert(out@ =~= seq!['\\', '"'] + rest@);
            } else if c == '\\' {
                assert(out@ =~= seq!['\\', '\\'] + rest@);
            } else {
                assert(out@ =~= seq![c] + rest@);
            }
        }
        out
    }
}

/// Writes one record exactly as `record_text` says.
#[verifier::rlimit(100)]
fn render_record(t: &Todo) -> (out: String)
    ensures
        out@ == record_text(t@),
{
    let mut out = String::from_str("  {\n    \"id\": \"");
    out.append(dec_u128(t.id).as_str());
    out.append("\",\n    \"title\": \"");
    proof {
        assert(t.title@.skip(0) =~= t.title@);
    }
    out.append(escaped_string(t.title.as_str(), 0).as_str());
    out.append("\"");
    out.append(",\n    \"description\": ");
    proof {
        assert(out@ == l_rec_open() + dec_spec(t.id as nat) + l_title() + escape(t@.title)
            + l_quote() + l_desc());
    }
    let ghost head = out@;
    match &t.description {
        None => {
            out.append("null");
        },
        Some(d) => {
            proof {
                assert(d@.skip(0) =~= d@);
            }
            out.append("\"");
            out.append(escaped_string(d.as_str(), 0).as_str());
            out.append("\"");
            proof {
                assert(((head + l_quote()) + escape(d@)) + l_quote() =~= head + (l_quote()
                    + escape(d@) + l_quote()));
            }
        },
    }
    proof {
        assert(out@ == head + desc_text(t@.description));
    }
    out.append(",\n    \"completed\": ");
    if t.completed {
        out.append("true");
    } else {
        out.append("false");
    }
    proof {
        assert(out@ == head + desc_text(t@.description) + l_completed() + bool_text(t@.completed));
    }
    out.append(",\n    \"created_at\": \"");
    out.append(dec_u64(t.created_at).as_str());
    out.append("\",\n    \"updated_at\": \"");
    out.append(dec_u64(t.updated_at).as_str());
    out.append("\",\n    \"priority\": \"");
    proof {
        assert(out@ == head + desc_text(t@.description) + l_completed() + bool_text(t@.completed)
            + l_created() + dec_spec(t@.created_at as nat) + l_updated() + dec_spec(
            t@.updated_at as nat,
        ) + l_priority());
    }
    let ghost head2 = out@;
    match t.priority {
        Priority::Low => out.append("Low"),
        Priority::Medium => out.append("Medium"),
        Priority::High => out.append("High"),
    }
    proof {
        assert(out@ == head2 + prio_text(t@.priority));
    }
    out.append("\"\n  }");
    proof {
        assert(out@ == record_text(t@));
    }
    out
}

fn render_records(todos: &Vec<Todo>, i: usize) -> (out: String)
    requires
        i < todos@.len(),
    ensures
        out@ == records_text(views_of(todos@).skip(i as int)),
    decreases todos@.len() - i,
{
    let ghost vs = views_of(todos@);
    let n = todos.len();
    let mut out = render_record(&todos[i]);
    if i + 1 < n {
        out.append(",\n");
        let rest = render_records(todos, i + 1);
        out.append(rest.as_str());
    }
    proof {
        let tail = vs.skip(i as int);
        assert(tail[0] == vs[i as int]);
        if i + 1 < todos@.len() {
            assert(tail.drop_first() =~= vs.skip(i as int + 1));
        } else {
            assert(tail.len() == 1);
        }
    }
    out
}

/// Writes the whole collection in the persisted form.
pub fn render_todos(todos: &Vec<Todo>) -> (out: String)
    ensures
        out@ == render_spec(views_of(todos@)),
{
    if todos.len() == 0 {
        String::from_str("[]")
    } else {
        let mut out = String::from_str("[\n");
        let body = render_records(todos, 0);
        out.append(body.as_str());
        out.append("\n]");
        proof {
            assert(views_of(todos@).skip(0) =~= views_of(todos@));
        }
        out
    }
}

// ---------------------------------------------------------------------------
// The reader: a recursive descent that follows the grammar above step for
// step, so each function's answer is exactly what its spec counterpart says.
// ---------------------------------------------------------------------------
pub open spec fn opt_str_view(d: Option<String>) -> Option<Seq<char>> {
    match d {
        Some(s) => Some(s@),
        None => None,
    }
}

fn expect_lit(s: &str, i: usize, l: &str) -> (r: Option<usize>)
    requires
        i <= s@.len(),
    ensures
        match r {
            Some(j) => i <= j <= s@.len() && j - i == l@.len() && sp_lit(s@.skip(i as int), l@)
                == Some(s@.skip(j as int)),
            None => sp_lit(s@.skip(i as int), l@) is None,
        },
{
    let n = s.unicode_len();
    let m = l.unicode_len();
    if m > n - i {
        proof {
            if l@.is_prefix_of(s@.skip(i as int)) {
                assert(false);
            }
        }
        return None;
    }
    let mut k: usize = 0;
    while k < m
        invariant
            i + m <= n,
            k <= m,
            n == s@.len(),
            m == l@.len(),
            i <= s@.len(),
            forall|q: int| 0 <= q < k ==> s@[i + q] == l@[q],
        decreases m - k,
    {
        if s.get_char(i + k) != l.get_char(k) {
            proof {
                let sub = s@.skip(i as int);
                if l@.is_prefix_of(sub) {
                    assert(sub.subrange(0, l@.len() as int)[k as int] == sub[k as int]);
                    assert(sub[k as int] == s@[i + k]);
                    assert(false);
                }
            }
            return None;
        }
        k += 1;
    }
    proof {
        let sub = s@.skip(i as int);
        assert(sub.subrange(0, m as int) =~= l@);
        assert(l@.is_prefix_of(sub));
        assert(sub.skip(m as int) =~= s@.skip(i + m));
    }
    Some(i + m)
}

fn parse_string_body(s: &str, i: usize) -> (r: Option<(String, usize)>)
    requires
        i <= s@.len(),
    ensures
        match r {
            Some(p) => i < p.1 <= s@.len() && sp_str_body(s@.skip(i as int)) == Some(
                (p.0@, s@.skip(p.1 as int)),
            ),
            None => sp_str_body(s@.skip(i as int)) is None,
        },
    decreases s@.len() - i,
{
    let n = s.unicode_len();
    let ghost tail = s@.skip(i as int);
    if i >= n {
        proof {
            assert(tail =~= Seq::<char>::empty());
        }
        return None;
    }
    let c = s.get_char(i);
    proof {
        assert(tail[0] == s@[i as int]);
    }
    if c == '"' {
        proof {
            assert(tail.drop_first() =~= s@.skip(i as int + 1));
        }
        Some((String::new(), i + 1))
    } else if c == '\\' {
        if i + 1 >= n {
            return None;
        }
        let c2 = s.get_char(i + 1);
        proof {
            assert(tail[1] == s@[i as int + 1]);
            assert(tail.skip(2) =~= s@.skip(i as int + 2));
        }
        if c2 == '"' || c2 == '\\' {
            match parse_string_body(s, i + 2) {
                Some(p) => {
                    let (body, j) = p;
                    let mut out = String::new();
                    out.push(c2);
                    out.append(body.as_str());
                    proof {
                        assert(out@ =~= seq![tail[1]] + body@);
                    }
                    Some((out, j))
                },
                None => None,
            }
        } else {
            None
        }
    } else {
        proof {
            assert(tail.drop_first() =~= s@.skip(i as int + 1));
        }
        match parse_string_body(s, i + 1) {
            Some(p) => {
                let (body, j) = p;
                let mut out = String::new();
                out.push(c);
                out.append(body.as_str());
                proof {
                    assert(out@ =~= seq![tail[0]] + body@);
                }
                Some((out, j))
            },
            None => None,
        }
    }
}

proof fn lemma_take_digits_range(s: Seq<char>, i: int, j: int)
    requires
        0 <= i <= j <= s.len(),
        forall|q: int| i <= q < j ==> is_digit_c(#[trigger] s[q]),
        j == s.len() || !is_digit_c(s[j]),
    ensures
        take_digits(s.skip(i)) == (s.subrange(i, j), s.skip(j)),
    decreases j - i,
{
    if i == j {
        if s.skip(i).len() > 0 {
            assert(s.skip(i)[0] == s[i]);
        }
        assert(s.subrange(i, j) =~= take_digits(s.skip(i)).0);
        assert(s.skip(j) == s.skip(i));
    } else {
        lemma_take_digits_range(s, i + 1, j);
        assert(s.skip(i)[0] == s[i]);
        assert(s.skip(i).drop_first() =~= s.skip(i + 1));
        assert(seq![s[i]] + s.subrange(i + 1, j) =~= s.subrange(i, j));
    }
}

fn parse_number(s: &str, i: usize, cap: u128) -> (r: Option<(u128, usize)>)
    requires
        i <= s@.len(),
    ensures
        match r {
            Some(p) => i < p.1 <= s@.len() && p.0 <= cap && sp_number(
                s@.skip(i as int),
                cap as nat,
            ) == Some((p.0 as nat, s@.skip(p.1 as int))),
            None => sp_number(s@.skip(i as int), cap as nat) is None,
        },
{
    let n = s.unicode_len();
    let mut j: usize = i;
    while j < n && is_digit(s.get_char(j))
        invariant
            i <= j <= n,
            n == s@.len(),
            forall|q: int| i <= q < j ==> is_digit_c(#[trigger] s@[q]),
        decreases n - j,
    {
        j += 1;
    }
    proof {
        lemma_take_digits_range(s@, i as int, j as int);
    }
    if j == i {
        return None;
    }
    if j > i + 1 && s.get_char(i) == '0' {
        return None;
    }
    let ghost ds = s@.subrange(i as int, j as int);
    let mut acc: u128 = 0;
    let mut k: usize = i;
    while k < j
        invariant
            i <= k <= j <= n,
            n == s@.len(),
            cap <= u128::MAX,
            forall|q: int| i <= q < j ==> is_digit_c(#[trigger] s@[q]),
            ds == s@.subrange(i as int, j as int),
            take_digits(s@.skip(i as int)) == (ds, s@.skip(j as int)),
            acc as nat == digits_val(s@.subrange(i as int, k as int)),
            acc <= cap,
        decreases j - k,
    {
        let d = digit_value(s.get_char(k));
        proof {
            assert(s@.subrange(i as int, k as int + 1).drop_last() =~= s@.subrange(
                i as int,
                k as int,
            ));
            assert(s@.subrange(i as int, k as int + 1).last() == s@[k as int]);
        }
        let over = if acc > cap / 10 {
            true
        } else if acc == cap / 10 && (d as u128) > cap % 10 {
            true
        } else {
            false
        };
        if over {
            proof {
                assert(cap == 10 * (cap / 10) + cap % 10);
                assert(acc as nat * 10 + d as nat > cap) by {
                    if acc > cap / 10 {
                        assert(acc as nat >= cap as nat / 10 + 1);
                        assert(acc as nat * 10 >= (cap as nat / 10 + 1) * 10);
                    }
                }
                assert(digits_val(s@.subrange(i as int, k as int + 1)) > cap as nat);
                assert(ds.take(k as int + 1 - i) =~= s@.subrange(i as int, k as int + 1));
                lemma_digits_val_prefix(ds, k as int + 1 - i);
                assert(digits_val(ds) > cap as nat);
            }
            return None;
        }
        proof {
            assert(acc as nat * 10 + d as nat <= cap as nat) by {
                assert(cap == 10 * (cap / 10) + cap % 10);
                if acc < cap / 10 {
                    assert(acc as nat * 10 <= (cap as nat / 10 - 1) * 10);
                }
            }
        }
        acc = acc * 10 + d as u128;
        k += 1;
    }
    proof {
        assert(s@.subrange(i as int, j as int) == ds);
    }
    Some((acc, j))
}

fn parse_desc(s: &str, i: usize) -> (r: Option<(Option<String>, usize)>)
    requires
        i <= s@.len(),
    ensures
        match r {
            Some(p) => i <= p.1 <= s@.len() && sp_desc(s@.skip(i as int)) == Some(
                (opt_str_view(p.0), s@.skip(p.1 as int)),
            ),
            None => sp_desc(s@.skip(i as int)) is None,
        },
{
    let ghost tail = s@.skip(i as int);
    match expect_lit(s, i, "null") {
        Some(j) => Some((None, j)),
        None => {
            let n = s.unicode_len();
            if i >= n {
                proof {
                    assert(tail.len() == 0);
                }
                return None;
            }
            let c = s.get_char(i);
            proof {
                assert(tail[0] == s@[i as int]);
                assert(tail.drop_first() =~= s@.skip(i as int + 1));
            }
            if c == '"' {
                match parse_string_body(s, i + 1) {
                    Some(p) => Some((Some(p.0), p.1)),
                    None => None,
                }
            } else {
                None
            }
        },
    }
}

fn parse_bool(s: &str, i: usize) -> (r: Option<(bool, usize)>)
    requires
        i <= s@.len(),
    ensures
        match r {
            Some(p) => i <= p.1 <= s@.len() && sp_bool(s@.skip(i as int)) == Some(
                (p.0, s@.skip(p.1 as int)),
            ),
            None => sp_bool(s@.skip(i as int)) is None,
        },
{
    match expect_lit(s, i, "true") {
        Some(j) => Some((true, j)),
        None => match expect_lit(s, i, "false") {
            Some(j) => Some((false, j)),
            None => None,
        },
    }
}

fn parse_prio(s: &str, i: usize) -> (r: Option<(Priority, usize)>)
    requires
        i <= s@.len(),
    ensures
        match r {
            Some(p) => i <= p.1 <= s@.len() && sp_prio(s@.skip(i as int)) == Some(
                (p.0, s@.skip(p.1 as int)),
            ),
            None => sp_prio(s@.skip(i as int)) is None,
        },
{
    match expect_lit(s, i, "Low") {
        Some(j) => Some((Priority::Low, j)),
        None => match expect_lit(s, i, "Medium") {
            Some(j) => Some((Priority::Medium, j)),
            None => match expect_lit(s, i, "High") {
                Some(j) => Some((Priority::High, j)),
                None => None,
            },
        },
    }
}

fn parse_record(s: &str, i: usize) -> (r: Option<(Todo, usize)>)
    requires
        i <= s@.len(),
    ensures
        match r {
            Some(p) => i < p.1 <= s@.len() && sp_record(s@.skip(i as int)) == Some(
                (p.0@, s@.skip(p.1 as int)),
            ),
            None => sp_record(s@.skip(i as int)) is None,
        },
{
    let i1 = match expect_lit(s, i, "  {\n    \"id\": \"") {
        None => {
            return None;
        },
        Some(j) => j,
    };
    proof {
        reveal_strlit("  {\n    \"id\": \"");
    }
    let (id, i2) = match parse_number(s, i1, u128::MAX) {
        None => {
            return None;
        },
        Some(p) => p,
    };
    let i3 = match expect_lit(s, i2, "\",\n    \"title\": \"") {
        None => {
            return None;
        },
        Some(j) => j,
    };
    let (title, i4) = match parse_string_body(s, i3) {
        None => {
            return None;
        },
        Some(p) => p,
    };
    let i5 = match expect_lit(s, i4, ",\n    \"description\": ") {
        None => {
            return None;
        },
        Some(j) => j,
    };
    let (description, i6) = match parse_desc(s, i5) {
        None => {
            return None;
        },
        Some(p) => p,
    };
    let i7 = match expect_lit(s, i6, ",\n    \"completed\": ") {
        None => {
            return None;
        },
        Some(j) => j,
    };
    let (completed, i8) = match parse_bool(s, i7) {
        None => {
            return None;
        },
        Some(p) => p,
    };
    let i9 = match expect_lit(s, i8, ",\n    \"created_at\": \"") {
        None => {
            return None;
        },
        Some(j) => j,
    };
    let (created_at, i10) = match parse_number(s, i9, u64::MAX as u128) {
        None => {
            return None;
        },
        Some(p) => p,
    };
    let i11 = match expect_lit(s, i10, "\",\n    \"updated_at\": \"") {
        None => {
            return None;
        },
        Some(j) => j,
    };
    let (updated_at, i12) = match parse_number(s, i11, u64::MAX as u128) {
        None => {
            return None;
        },
        Some(p) => p,
    };
    let i13 = match expect_lit(s, i12, "\",\n    \"priority\": \"") {
        None => {
            return None;
        },
        Some(j) => j,
    };
    let (priority, i14) = match parse_prio(s, i13) {
        None => {
            return None;
        },
        Some(p) => p,
    };
    let i15 = match expect_lit(s, i14, "\"\n  }") {
        None => {
            return None;
        },
        Some(j) => j,
    };
    let todo = Todo {
        id,
        title,
        description,
        completed,
        created_at: created_at as u64,
        updated_at: updated_at as u64,
        priority,
    };
    Some((todo, i15))
}

fn parse_records(s: &str, i: usize) -> (r: Option<(Vec<Todo>, usize)>)
    requires
        i <= s@.len(),
    ensures
        match r {
            Some(p) => i < p.1 <= s@.len() && sp_records(s@.skip(i as int)) == Some(
                (views_of(p.0@), s@.skip(p.1 as int)),
            ),
            None => sp_records(s@.skip(i as int)) is None,
        },
    decreases s@.len() - i,
{
    match parse_record(s, i) {
        None => None,
        Some(p) => {
            let (t, j) = p;
            match expect_lit(s, j, ",\n") {
                None => {
                    let mut v: Vec<Todo> = Vec::new();
                    v.push(t);
                    proof {
                        assert(views_of(v@) =~= seq![t@]);
                    }
                    Some((v, j))
                },
                Some(j2) => {
                    proof {
                        reveal_strlit(",\n");
                        assert(s@.skip(j2 as int).len() < s@.skip(i as int).len());
                    }
                    match parse_records(s, j2) {
                        None => None,
                        Some(q) => {
                            let (rest, j3) = q;
                            let mut v = rest;
                            v.insert(0, t);
                            proof {
                                assert(views_of(v@) =~= seq![t@] + views_of(
                                    v@.subrange(1, v@.len() as int),
                                ));
                                assert(v@.subrange(1, v@.len() as int) =~= v@.skip(1));
                            }
                            Some((v, j3))
                        },
                    }
                },
            }
        },
    }
}

fn malformed_error() -> (e: TodoError)
    ensures
        e is SerializationError,
{
    TodoError::SerializationError(String::from_str("malformed todo file"))
}

/// Reads a persisted collection back. The writer's output is always read
/// back intact, nothing else is ever accepted, and anything outside the
/// format is a `SerializationError`.
pub fn parse_todos(content: &str) -> (r: Result<Vec<Todo>, TodoError>)
    ensures
        match r {
            Ok(v) => parse_spec(content@) == Some(views_of(v@)),
            Err(e) => parse_spec(content@) is None && e is SerializationError,
        },
{
    let n = content.unicode_len();
    proof {
        assert(content@.skip(0) =~= content@);
        reveal_strlit("[]");
    }
    match expect_lit(content, 0, "[]") {
        Some(j) => {
            if j == n {
                proof {
                    assert(content@ =~= l_empty());
                }
                let v: Vec<Todo> = Vec::new();
                proof {
                    assert(views_of(v@) =~= Seq::<TodoView>::empty());
                }
                return Ok(v);
            }
            proof {
                assert(content@.len() > l_empty().len());
                assert(content@ != l_empty());
            }
        },
        None => {
            proof {
                if content@ == l_empty() {
                    assert(l_empty().subrange(0, l_empty().len() as int) =~= l_empty());
                    assert(false);
                }
            }
        },
    }
    let i1 = match expect_lit(content, 0, "[\n") {
        None => {
            return Err(malformed_error());
        },
        Some(j) => j,
    };
    let (v, j) = match parse_records(content, i1) {
        None => {
            return Err(malformed_error());
        },
        Some(p) => p,
    };
    proof {
        reveal_strlit("\n]");
    }
    match expect_lit(content, j, "\n]") {
        Some(j2) => {
            if j2 == n {
                proof {
                    let tail = content@.skip(j as int);
                    assert(tail.len() == l_close().len());
                    assert(tail.subrange(0, l_close().len() as int) =~= tail);
                    assert(tail =~= l_close());
                }
                Ok(v)
            } else {
                proof {
                    assert(content@.skip(j as int).len() > l_close().len());
                    assert(content@.skip(j as int) != l_close());
                }
                Err(malformed_error())
            }
        },
        None => {
            proof {
                let tail = content@.skip(j as int);
                if tail == l_close() {
                    assert(l_close().subrange(0, l_close().len() as int) =~= l_close());
                    assert(false);
                }
            }
            Err(malformed_error())
        },
    }
}

} // verus!
