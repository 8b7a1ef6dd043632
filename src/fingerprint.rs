use vstd::prelude::*;
use std::collections::hash_map::DefaultHasher;
use std::hash::Hasher;
use vstd::std_specs::hash::DefaultHasherAdditionalSpecFns;
use vstd::string::{StringExecFns, StrSliceExecFns};
use vstd::utf8::encode_utf8;

use crate::json::JsonValue;
use crate::text::{decimal, nat_digits, push_decimal, push_digits};

verus! {

broadcast use vstd::std_specs::vec::group_vec_axioms;

/// The standard library's default hash of the UTF-8 bytes of `text`.
pub open spec fn digest(text: Seq<char>) -> u64 {
    DefaultHasher::spec_finish(seq![encode_utf8(text)])
}

/// Text preceded by its length and a colon, so that it ends unambiguously.
pub open spec fn framed(text: Seq<char>) -> Seq<char> {
    nat_digits(text.len()) + seq![':'] + text
}

/// The canonical text of a configuration value.
///
/// Objects are written as their member count and the wrapping sum of their
/// members' digests, so the text does not depend on the order of members.
pub open spec fn canonical(v: JsonValue) -> Seq<char>
    decreases v,
{
    match v {
        JsonValue::Null => seq!['n'],
        JsonValue::Bool(b) => if b {
            seq!['t']
        } else {
            seq!['f']
        },
        JsonValue::Integer(n) => seq!['i'] + decimal(n as int) + seq![';'],
        JsonValue::Number(s) => seq!['d'] + framed(s@),
        JsonValue::Str(s) => seq!['s'] + framed(s@),
        JsonValue::Array(items) => seq!['a'] + nat_digits(items@.len()) + seq![':']
            + canonical_items(items@),
        JsonValue::Object(members) => seq!['o'] + nat_digits(members@.len()) + seq![':']
            + nat_digits(member_sum(members@) as nat),
    }
}

/// The canonical texts of `items`, one after another.
pub open spec fn canonical_items(items: Seq<JsonValue>) -> Seq<char>
    decreases items,
{
    if items.len() == 0 {
        Seq::empty()
    } else {
        canonical_items(items.drop_last()) + canonical(items.last())
    }
}

/// The wrapping sum of the digests of the members, each written as its
/// framed key followed by the canonical text of its value.
pub open spec fn member_sum(members: Seq<(String, JsonValue)>) -> u64
    decreases members,
{
    if members.len() == 0 {
        0
    } else {
        member_sum(members.drop_last()).wrapping_add(
            digest(framed(members.last().0@) + canonical(members.last().1)),
        )
    }
}

/// The fingerprint of a configuration: the digest of its canonical text.
pub open spec fn fingerprint(config: JsonValue) -> u64 {
    digest(canonical(config))
}

fn digest_text(text: &String) -> (r: u64)
    ensures
        r == digest(text@),
{
    let mut hasher = DefaultHasher::new();
    hasher.write(text.as_str().as_bytes());
    assert(hasher@ =~= seq![encode_utf8(text@)]);
    hasher.finish()
}

fn push_framed(out: &mut String, text: &str)
    ensures
        final(out)@ == old(out)@ + framed(text@),
{
    let n = text.unicode_len();
    push_digits(out, n as u64);
    out.append(":");
    proof {
        reveal_strlit(":");
    }
    out.append(text);
    assert(out@ =~= old(out)@ + framed(text@));
}

fn write_canonical(out: &mut String, v: &JsonValue)
    ensures
        final(out)@ == old(out)@ + canonical(*v),
    decreases *v,
{
    proof {
        reveal_strlit("n");
        reveal_strlit("t");
        reveal_strlit("f");
        reveal_strlit("i");
        reveal_strlit(";");
        reveal_strlit("d");
        reveal_strlit("s");
        reveal_strlit("a");
        reveal_strlit("o");
        reveal_strlit(":");
    }
    match v {
        JsonValue::Null => {
            out.append("n");
        },
        JsonValue::Bool(b) => {
            if *b {
                out.append("t");
            } else {
                out.append("f");
            }
        },
        JsonValue::Integer(n) => {
            out.append("i");
            push_decimal(out, *n);
            out.append(";");
        },
        JsonValue::Number(s) => {
            out.append("d");
            push_framed(out, s.as_str());
        },
        JsonValue::Str(s) => {
            out.append("s");
            push_framed(out, s.as_str());
        },
        JsonValue::Array(items) => {
            out.append("a");
            push_digits(out, items.len() as u64);
            out.append(":");
            let ghost start = out@;
            let mut i: usize = 0;
            assert(items@.subrange(0, 0) =~= Seq::<JsonValue>::empty());
            assert(out@ =~= start + canonical_items(items@.subrange(0, 0)));
            while i < items.len()
                invariant
                    0 <= i <= items@.len(),
                    *v == JsonValue::Array(*items),
                    out@ == start + canonical_items(items@.subrange(0, i as int)),
                decreases items@.len() - i,
            {
                assert(decreases_to!(*v => (*v)->Array_0));
                assert(decreases_to!(*items => items@));
                assert(decreases_to!(items@ => items@[i as int]));
                assert(decreases_to!(*v => items@[i as int]));
                write_canonical(out, &items[i]);
                assert(items@.subrange(0, i + 1).drop_last() =~= items@.subrange(0, i as int));
                assert(items@.subrange(0, i + 1).last() == items@[i as int]);
                i = i + 1;
            }
            assert(items@.subrange(0, items@.len() as int) =~= items@);
            assert(out@ =~= old(out)@ + canonical(*v));
        },
        JsonValue::Object(members) => {
            out.append("o");
            push_digits(out, members.len() as u64);
            out.append(":");
            let mut sum: u64 = 0;
            let mut i: usize = 0;
            assert(members@.subrange(0, 0) =~= Seq::<(String, JsonValue)>::empty());
            while i < members.len()
                invariant
                    0 <= i <= members@.len(),
                    *v == JsonValue::Object(*members),
                    sum == member_sum(members@.subrange(0, i as int)),
                decreases members@.len() - i,
            {
                assert(decreases_to!(*v => (*v)->Object_0));
                assert(decreases_to!(*members => members@));
                assert(decreases_to!(members@ => members@[i as int]));
                assert(decreases_to!(members@[i as int] => members@[i as int].1));
                assert(decreases_to!(*v => members@[i as int].1));
                let mut text = String::new();
                push_framed(&mut text, members[i].0.as_str());
                write_canonical(&mut text, &members[i].1);
                sum = sum.wrapping_add(digest_text(&text));
                assert(members@.subrange(0, i + 1).drop_last() =~= members@.subrange(0, i as int));
                assert(members@.subrange(0, i + 1).last() == members@[i as int]);
                i = i + 1;
            }
            assert(members@.subrange(0, members@.len() as int) =~= members@);
            push_digits(out, sum);
            assert(out@ =~= old(out)@ + canonical(*v));
        },
    }
}

/// Computes the fingerprint of a configuration.
pub fn config_fingerprint(config: &JsonValue) -> (r: u64)
    ensures
        r == fingerprint(*config),
{
    let mut text = String::new();
    write_canonical(&mut text, config);
    assert(text@ =~= canonical(*config));
    digest_text(&text)
}

} // verus!
