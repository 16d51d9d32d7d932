//! Flat JSON objects: members with plain names whose values are booleans and unsigned numbers.
use crate::text::{all_digits, decimal, digit_char, is_digit, matches_at, replaced};
use vstd::prelude::*;

verus! {

/// A value of a member.
#[derive(Clone, Copy, PartialEq, Eq, Structural, Debug)]
pub enum JsonScalar {
    Bool(bool),
    Number(u32),
}

/// A member by name and value.
pub type Member = (Seq<char>, JsonScalar);

/// Whether `c` can stand in the name of a member.
pub open spec fn is_word_char(c: char) -> bool {
    'a' <= c <= 'z' || c == '_'
}

/// Whether a name is made of lower-case letters and underscores alone.
pub open spec fn is_word(name: Seq<char>) -> bool {
    forall|i: int| 0 <= i < name.len() ==> is_word_char(#[trigger] name[i])
}

/// Whether every member has such a name.
pub open spec fn word_names(members: Seq<Member>) -> bool {
    forall|i: int| 0 <= i < members.len() ==> is_word((#[trigger] members[i]).0)
}

/// The text of a value.
pub open spec fn scalar_text(value: JsonScalar) -> Seq<char> {
    match value {
        JsonScalar::Bool(true) => "true"@,
        JsonScalar::Bool(false) => "false"@,
        JsonScalar::Number(n) => decimal(n as nat),
    }
}

/// The text of a member: its name in quotes, a colon and its value.
pub open spec fn member_text(member: Member) -> Seq<char> {
    seq!['"'] + member.0 + seq!['"', ':'] + scalar_text(member.1)
}

/// The text of members that follow others: each has a comma before it.
pub open spec fn tail_text(members: Seq<Member>) -> Seq<char>
    decreases members.len(),
{
    if members.len() == 0 {
        Seq::empty()
    } else {
        seq![','] + member_text(members[0]) + tail_text(members.skip(1))
    }
}

/// The text of an object, without white space and with its members in the given order.
pub open spec fn object_text(members: Seq<Member>) -> Seq<char> {
    if members.len() == 0 {
        seq!['{', '}']
    } else {
        seq!['{'] + member_text(members[0]) + tail_text(members.skip(1)) + seq!['}']
    }
}

/// The members without those that equal `gone`.
pub open spec fn without(members: Seq<Member>, gone: Member) -> Seq<Member>
    decreases members.len(),
{
    if members.len() == 0 {
        members
    } else if members[0] == gone {
        without(members.skip(1), gone)
    } else {
        seq![members[0]] + without(members.skip(1), gone)
    }
}

/// A list of members as name and value.
pub open spec fn listed(members: Seq<(&'static str, JsonScalar)>) -> Seq<Member> {
    members.map_values(|m: (&'static str, JsonScalar)| (m.0@, m.1))
}

/// Serializes a flat object with `serde::Serializer::collect_map` of the serializer of
/// `serde_json` that writes no white space.
///
/// What is relied on: it writes a brace, the members in the order of the iterator with a comma
/// between them, and a brace; a member is its name in quotes, a colon and its value; a name
/// without quotes, backslashes and control characters is written as it is; a boolean is written
/// as `true` or `false` and an unsigned number as its decimal digits. Writing to memory does not
/// fail.
#[verifier::external_body]
pub(crate) fn serialize_object(members: &Vec<(&'static str, JsonScalar)>) -> (text: Option<String>)
    requires
        word_names(listed(members@)),
    ensures
        text is Some,
        text->Some_0@ == object_text(listed(members@)),
{
    let mut out: Vec<u8> = Vec::new();
    let entries = members.iter().map(
        |member|
            match member.1 {
                JsonScalar::Bool(value) => (member.0, serde_json::Value::from(value)),
                JsonScalar::Number(value) => (member.0, serde_json::Value::from(value)),
            },
    );
    serde::Serializer::collect_map(&mut serde_json::Serializer::new(&mut out), entries).ok()?;
    String::from_utf8(out).ok()
}

/// Whether text goes on with something that is neither part of a name nor of a value.
pub open spec fn ends_value(rest: Seq<char>) -> bool {
    rest.len() > 0 && (rest[0] == ',' || rest[0] == '}')
}

/// The decimal digits of a number are digits, and there is at least one.
pub proof fn lemma_decimal_digits(n: nat)
    ensures
        all_digits(decimal(n)),
    decreases n,
{
    if n >= 10 {
        lemma_decimal_digits(n / 10);
    }
}

/// Different numbers have different digits.
pub proof fn lemma_decimal_injective(a: nat, b: nat)
    requires
        decimal(a) == decimal(b),
    ensures
        a == b,
    decreases a,
{
    let x = decimal(a);
    let y = decimal(b);
    assert(x.last() == y.last());
    if a < 10 && b >= 10 {
        lemma_decimal_digits(b / 10);
        assert(x.len() == 1 && y.len() > 1);
    } else if a >= 10 && b < 10 {
        lemma_decimal_digits(a / 10);
        assert(x.len() > 1 && y.len() == 1);
    } else if a >= 10 {
        assert(x.drop_last() =~= decimal(a / 10));
        assert(y.drop_last() =~= decimal(b / 10));
        lemma_decimal_injective(a / 10, b / 10);
        assert(digit_char(a % 10) == digit_char(b % 10));
    }
}

/// Where a run of characters of one kind ends is decided by the text.
proof fn lemma_same_run(
    a: Seq<char>,
    ra: Seq<char>,
    b: Seq<char>,
    rb: Seq<char>,
    kind: spec_fn(char) -> bool,
)
    requires
        forall|i: int| 0 <= i < a.len() ==> kind(#[trigger] a[i]),
        forall|i: int| 0 <= i < b.len() ==> kind(#[trigger] b[i]),
        ra.len() > 0 && !kind(ra[0]),
        rb.len() > 0 && !kind(rb[0]),
        a + ra == b + rb,
    ensures
        a == b,
        ra == rb,
{
    let t = a + ra;
    if a.len() < b.len() {
        assert(t[a.len() as int] == ra[0]);
        assert((b + rb)[a.len() as int] == b[a.len() as int]);
    } else if b.len() < a.len() {
        assert((b + rb)[b.len() as int] == rb[0]);
        assert(t[b.len() as int] == a[b.len() as int]);
    }
    assert(a =~= t.take(a.len() as int));
    assert(b =~= (b + rb).take(b.len() as int));
    assert(ra =~= t.skip(a.len() as int));
    assert(rb =~= (b + rb).skip(b.len() as int));
}

/// A value can be told from the text that starts with it.
proof fn lemma_scalar_read_back(a: JsonScalar, ra: Seq<char>, b: JsonScalar, rb: Seq<char>)
    requires
        ends_value(ra),
        ends_value(rb),
        scalar_text(a) + ra == scalar_text(b) + rb,
    ensures
        a == b,
        ra == rb,
{
    reveal_strlit("true");
    reveal_strlit("false");
    let t = scalar_text(a) + ra;
    let u = scalar_text(b) + rb;
    assert(t[0] == u[0]);
    assert(scalar_text(a).len() > 0 ==> t[0] == scalar_text(a)[0]);
    assert(scalar_text(b).len() > 0 ==> u[0] == scalar_text(b)[0]);
    match a {
        JsonScalar::Number(n) => {
            lemma_decimal_digits(n as nat);
            assert(is_digit(decimal(n as nat)[0]));
        },
        JsonScalar::Bool(_) => {},
    }
    match b {
        JsonScalar::Number(n) => {
            lemma_decimal_digits(n as nat);
            assert(is_digit(decimal(n as nat)[0]));
        },
        JsonScalar::Bool(_) => {},
    }
    match (a, b) {
        (JsonScalar::Number(n), JsonScalar::Number(m)) => {
            lemma_same_run(decimal(n as nat), ra, decimal(m as nat), rb, |c: char| is_digit(c));
            lemma_decimal_injective(n as nat, m as nat);
        },
        _ => {
            assert(ra =~= t.skip(scalar_text(a).len() as int));
            assert(rb =~= u.skip(scalar_text(b).len() as int));
        },
    }
}

/// A member can be told from the text that starts with it.
proof fn lemma_member_read_back(a: Member, ra: Seq<char>, b: Member, rb: Seq<char>)
    requires
        is_word(a.0),
        is_word(b.0),
        ends_value(ra),
        ends_value(rb),
        member_text(a) + ra == member_text(b) + rb,
    ensures
        a == b,
        ra == rb,
{
    let t = member_text(a) + ra;
    let u = member_text(b) + rb;
    let va = seq!['"', ':'] + scalar_text(a.1) + ra;
    let vb = seq!['"', ':'] + scalar_text(b.1) + rb;
    assert(t.skip(1) =~= a.0 + va);
    assert(u.skip(1) =~= b.0 + vb);
    lemma_same_run(a.0, va, b.0, vb, |c: char| is_word_char(c));
    assert(va.skip(2) =~= scalar_text(a.1) + ra);
    assert(vb.skip(2) =~= scalar_text(b.1) + rb);
    lemma_scalar_read_back(a.1, ra, b.1, rb);
}

/// What follows members starts as the end of a value does.
proof fn lemma_tail_ends_value(members: Seq<Member>)
    ensures
        ends_value(tail_text(members) + seq!['}']),
{
}

/// The members that follow can be told from their text.
proof fn lemma_tail_read_back(a: Seq<Member>, b: Seq<Member>)
    requires
        word_names(a),
        word_names(b),
        tail_text(a) + seq!['}'] == tail_text(b) + seq!['}'],
    ensures
        a == b,
    decreases a.len(),
{
    let t = tail_text(a) + seq!['}'];
    let u = tail_text(b) + seq!['}'];
    assert(t[0] == u[0]);
    if a.len() == 0 || b.len() == 0 {
        assert(a =~= b);
    } else {
        let ra = tail_text(a.skip(1)) + seq!['}'];
        let rb = tail_text(b.skip(1)) + seq!['}'];
        assert(t.skip(1) =~= member_text(a[0]) + ra);
        assert(u.skip(1) =~= member_text(b[0]) + rb);
        lemma_tail_ends_value(a.skip(1));
        lemma_tail_ends_value(b.skip(1));
        lemma_member_read_back(a[0], ra, b[0], rb);
        lemma_tail_read_back(a.skip(1), b.skip(1));
        assert(a =~= seq![a[0]] + a.skip(1));
        assert(b =~= seq![b[0]] + b.skip(1));
    }
}

/// An object can be told from its text: two objects with the same text have the same members in
/// the same order.
pub proof fn object_text_is_injective(a: Seq<Member>, b: Seq<Member>)
    requires
        word_names(a),
        word_names(b),
        object_text(a) == object_text(b),
    ensures
        a == b,
{
    let t = object_text(a);
    let u = object_text(b);
    assert(t[1] == u[1]);
    if a.len() == 0 || b.len() == 0 {
        assert(a =~= b);
    } else {
        let ra = tail_text(a.skip(1)) + seq!['}'];
        let rb = tail_text(b.skip(1)) + seq!['}'];
        assert(t.skip(1) =~= member_text(a[0]) + ra);
        assert(u.skip(1) =~= member_text(b[0]) + rb);
        lemma_tail_ends_value(a.skip(1));
        lemma_tail_ends_value(b.skip(1));
        lemma_member_read_back(a[0], ra, b[0], rb);
        lemma_tail_read_back(a.skip(1), b.skip(1));
        assert(a =~= seq![a[0]] + a.skip(1));
        assert(b =~= seq![b[0]] + b.skip(1));
    }
}

/// Text that does not hold the first character of the pattern passes through a replacement.
proof fn lemma_replaced_passes(a: Seq<char>, rest: Seq<char>, pattern: Seq<char>, by: Seq<char>)
    requires
        pattern.len() > 0,
        forall|i: int| 0 <= i < a.len() ==> #[trigger] a[i] != pattern[0],
    ensures
        replaced(a + rest, pattern, by) == a + replaced(rest, pattern, by),
    decreases a.len(),
{
    if a.len() == 0 {
        assert(a + rest =~= rest);
        assert(a + replaced(rest, pattern, by) =~= replaced(rest, pattern, by));
    } else {
        let t = a + rest;
        assert(t.skip(1) =~= a.skip(1) + rest);
        lemma_replaced_passes(a.skip(1), rest, pattern, by);
        assert(t[0] == a[0]);
        if t.len() < pattern.len() {
            assert(replaced(rest, pattern, by) == rest);
        } else {
            assert(!matches_at(t, pattern, 0)) by {
                if matches_at(t, pattern, 0) {
                    assert(t.subrange(0, pattern.len() as int)[0] == pattern[0]);
                }
            }
        }
        assert(replaced(t, pattern, by) =~= a + replaced(rest, pattern, by));
    }
}

/// No comma stands in a member.
proof fn lemma_member_has_no_comma(member: Member)
    requires
        is_word(member.0),
    ensures
        forall|i: int| 0 <= i < member_text(member).len() ==> #[trigger] member_text(member)[i] != ',',
{
    reveal_strlit("true");
    reveal_strlit("false");
    let t = member_text(member);
    let s = scalar_text(member.1);
    let n = member.0.len();
    assert forall|i: int| 0 <= i < t.len() implies #[trigger] t[i] != ',' by {
        if 1 <= i < n + 1 {
            assert(t[i] == member.0[i - 1]);
        } else if i >= n + 3 {
            let k = i - n - 3;
            assert(t[i] == s[k]);
            match member.1 {
                JsonScalar::Number(v) => {
                    lemma_decimal_digits(v as nat);
                    assert(is_digit(s[k]));
                },
                JsonScalar::Bool(true) => {
                    if k == 0 {
                    } else if k == 1 {
                    } else if k == 2 {
                    } else {
                        assert(k == 3);
                    }
                },
                JsonScalar::Bool(false) => {
                    if k == 0 {
                    } else if k == 1 {
                    } else if k == 2 {
                    } else if k == 3 {
                    } else {
                        assert(k == 4);
                    }
                },
            }
        }
    }
}

/// Whether a member that follows a comma is `gone` is decided by a match of the text of `gone`.
proof fn lemma_match_decides(member: Member, rest: Seq<char>, name: Seq<char>)
    requires
        is_word(member.0),
        is_word(name),
        ends_value(rest),
    ensures
        matches_at(
            seq![','] + member_text(member) + rest,
            seq![','] + member_text((name, JsonScalar::Bool(true))),
            0,
        ) == (member == (name, JsonScalar::Bool(true))),
{
    reveal_strlit("true");
    reveal_strlit("false");
    let gone: Member = (name, JsonScalar::Bool(true));
    let t = seq![','] + member_text(member) + rest;
    let p = seq![','] + member_text(gone);
    if member == gone {
        assert(t.subrange(0, p.len() as int) =~= p);
    } else if matches_at(t, p, 0) {
        let n = member.0.len() as int;
        let m = name.len() as int;
        let head = t.subrange(0, p.len() as int);
        assert(head == p);
        if n < m {
            assert(head[n + 2] == '"' && p[n + 2] == name[n]);
        } else if m < n {
            assert(head[m + 2] == member.0[m] && p[m + 2] == '"');
        } else {
            assert forall|i: int| 0 <= i < n implies member.0[i] == name[i] by {
                assert(head[i + 2] == member.0[i] && p[i + 2] == name[i]);
            }
            assert(member.0 =~= name);
            assert(p[n + 4] == 't');
            let s = scalar_text(member.1);
            match member.1 {
                JsonScalar::Number(v) => {
                    lemma_decimal_digits(v as nat);
                    assert(is_digit(s[0]));
                },
                JsonScalar::Bool(_) => {},
            }
            assert(head[n + 4] == s[0]);
        }
    }
}

/// What a replacement does to the members that follow others.
proof fn lemma_remove_from_tail(members: Seq<Member>, name: Seq<char>)
    requires
        word_names(members),
        is_word(name),
    ensures
        replaced(
            tail_text(members) + seq!['}'],
            seq![','] + member_text((name, JsonScalar::Bool(true))),
            Seq::empty(),
        ) == tail_text(without(members, (name, JsonScalar::Bool(true)))) + seq!['}'],
    decreases members.len(),
{
    let gone: Member = (name, JsonScalar::Bool(true));
    let p = seq![','] + member_text(gone);
    let none = Seq::<char>::empty();
    let t = tail_text(members) + seq!['}'];
    if members.len() == 0 {
        assert(t =~= seq!['}']);
        assert(t.len() < p.len());
        assert(tail_text(without(members, gone)) + seq!['}'] =~= seq!['}']);
    } else {
        let first = members[0];
        let rest = tail_text(members.skip(1)) + seq!['}'];
        assert(t =~= seq![','] + member_text(first) + rest);
        lemma_tail_ends_value(members.skip(1));
        lemma_remove_from_tail(members.skip(1), name);
        lemma_match_decides(first, rest, name);
        if first == gone {
            assert(t.skip(p.len() as int) =~= rest);
            assert(replaced(t, p, none) =~= replaced(rest, p, none));
        } else {
            let kept = without(members.skip(1), gone);
            assert(without(members, gone).skip(1) =~= kept);
            assert(without(members, gone)[0] == first);
            lemma_member_has_no_comma(first);
            lemma_replaced_passes(member_text(first), rest, p, none);
            assert(t.skip(1) =~= member_text(first) + rest);
            if t.len() < p.len() {
                lemma_replaced_passes(none, rest, p, none);
                assert(replaced(rest, p, none) == rest);
            }
            assert(tail_text(without(members, gone)) + seq!['}'] =~= seq![','] + member_text(first)
                + (tail_text(kept) + seq!['}']));
            assert(replaced(t, p, none) =~= seq![','] + member_text(first) + replaced(rest, p, none));
        }
    }
}

/// Deleting the text of a true member, with the comma before it, is removing that member: every
/// member but the first that equals it goes, and the others stay as they are.
pub proof fn deleting_text_removes_member(members: Seq<Member>, name: Seq<char>)
    requires
        word_names(members),
        is_word(name),
        members.len() > 0,
    ensures
        replaced(
            object_text(members),
            seq![','] + member_text((name, JsonScalar::Bool(true))),
            Seq::empty(),
        ) == object_text(
            seq![members[0]] + without(members.skip(1), (name, JsonScalar::Bool(true))),
        ),
{
    let gone: Member = (name, JsonScalar::Bool(true));
    let p = seq![','] + member_text(gone);
    let none = Seq::<char>::empty();
    let head = seq!['{'] + member_text(members[0]);
    let rest = tail_text(members.skip(1)) + seq!['}'];
    let kept = without(members.skip(1), gone);
    lemma_member_has_no_comma(members[0]);
    assert forall|i: int| 0 <= i < head.len() implies #[trigger] head[i] != p[0] by {
        if i > 0 {
            assert(head[i] == member_text(members[0])[i - 1]);
        }
    }
    lemma_replaced_passes(head, rest, p, none);
    lemma_remove_from_tail(members.skip(1), name);
    assert(object_text(members) =~= head + rest);
    assert((seq![members[0]] + kept).skip(1) =~= kept);
    assert(object_text(seq![members[0]] + kept) =~= head + (tail_text(kept) + seq!['}']));
}

} // verus!
