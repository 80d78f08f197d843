//! The handle registry: the closed mapping from handle-kind name to wire
//! type tag, as the manifest's type table fixed it for one generation run.
//! The codec and the generator agree on tags through it, and it emits the
//! declaration that bakes each kind's tag in as a named constant.

use vstd::prelude::*;
use vstd::string::StringExecFns;

use crate::emit::push_dec_i64;
use crate::emit::spec_dec_chars_i64;
use crate::manifest::SpecTypeEntry;
use crate::manifest::TypeEntry;
use crate::manifest::str_eq;

verus! {

/// The wire tag the table assigns to a kind, if the kind is present.
pub open spec fn spec_tag_for_kind(ts: Seq<(Seq<char>, SpecTypeEntry)>, kind: Seq<char>) -> Option<
    i64,
>
    decreases ts,
{
    if ts.len() == 0 {
        None
    } else if ts[0].0 == kind {
        Some(ts[0].1.id)
    } else {
        spec_tag_for_kind(ts.subrange(1, ts.len() as int), kind)
    }
}

/// The kind a wire tag selects, if any kind carries it.
pub open spec fn spec_kind_for_tag(ts: Seq<(Seq<char>, SpecTypeEntry)>, tag: i64) -> Option<
    Seq<char>,
>
    decreases ts,
{
    if ts.len() == 0 {
        None
    } else if ts[0].1.id == tag {
        Some(ts[0].0)
    } else {
        spec_kind_for_tag(ts.subrange(1, ts.len() as int), tag)
    }
}

/// Looks up the wire tag of a handle kind.
#[verifier::loop_isolation(false)]
pub fn tag_for_kind(ts: &Vec<(String, TypeEntry)>, kind: &str) -> (r: Option<i64>)
    ensures
        r == spec_tag_for_kind(ts.deep_view(), kind@),
{
    let n = ts.len();
    let mut i: usize = 0;
    proof {
        assert(ts.deep_view().subrange(0, n as int) =~= ts.deep_view());
    }
    while i < n
        invariant
            0 <= i <= n,
            n == ts@.len(),
            ts.deep_view().len() == n,
            spec_tag_for_kind(ts.deep_view(), kind@) == spec_tag_for_kind(
                ts.deep_view().subrange(i as int, n as int),
                kind@,
            ),
        decreases n - i,
    {
        proof {
            let tv = ts.deep_view();
            assert(tv.subrange(i as int, n as int)[0] == tv[i as int]);
            assert(tv[i as int] == (ts@[i as int].0.deep_view(), ts@[i as int].1.deep_view()));
            assert(tv.subrange(i as int, n as int).subrange(1, (n - i) as int) =~= tv.subrange(
                i + 1,
                n as int,
            ));
        }
        if str_eq(ts[i].0.as_str(), kind) {
            return Some(ts[i].1.id);
        }
        i = i + 1;
    }
    proof {
        assert(ts.deep_view().subrange(n as int, n as int) =~= Seq::<
            (Seq<char>, SpecTypeEntry),
        >::empty());
    }
    None
}

/// Looks up the handle kind a wire tag selects; fails if the tag is absent.
#[verifier::loop_isolation(false)]
pub fn kind_for_tag<'a>(ts: &'a Vec<(String, TypeEntry)>, tag: i64) -> (r: Option<&'a String>)
    ensures
        match r {
            Some(name) => spec_kind_for_tag(ts.deep_view(), tag) == Some(name@),
            None => spec_kind_for_tag(ts.deep_view(), tag) is None,
        },
{
    let n = ts.len();
    let mut i: usize = 0;
    proof {
        assert(ts.deep_view().subrange(0, n as int) =~= ts.deep_view());
    }
    while i < n
        invariant
            0 <= i <= n,
            n == ts@.len(),
            ts.deep_view().len() == n,
            spec_kind_for_tag(ts.deep_view(), tag) == spec_kind_for_tag(
                ts.deep_view().subrange(i as int, n as int),
                tag,
            ),
        decreases n - i,
    {
        proof {
            let tv = ts.deep_view();
            assert(tv.subrange(i as int, n as int)[0] == tv[i as int]);
            assert(tv[i as int] == (ts@[i as int].0.deep_view(), ts@[i as int].1.deep_view()));
            assert(tv.subrange(i as int, n as int).subrange(1, (n - i) as int) =~= tv.subrange(
                i + 1,
                n as int,
            ));
        }
        if ts[i].1.id == tag {
            return Some(&ts[i].0);
        }
        i = i + 1;
    }
    proof {
        assert(ts.deep_view().subrange(n as int, n as int) =~= Seq::<
            (Seq<char>, SpecTypeEntry),
        >::empty());
    }
    None
}

/// The declaration the registry emits for one kind: its tag baked in as a
/// named constant.
pub open spec fn spec_gen_type_decl(name: Seq<char>, id: i64) -> Seq<char> {
    "impl "@ + name + " {\n    pub const TYPE_ID: i8 = "@ + spec_dec_chars_i64(id) + ";\n}\n\n"@
}

/// Appends the declaration for one handle kind.
pub fn push_type_decl(out: &mut String, name: &str, id: i64)
    ensures
        final(out)@ == old(out)@ + spec_gen_type_decl(name@, id),
{
    out.append("impl ");
    out.append(name);
    out.append(" {\n    pub const TYPE_ID: i8 = ");
    push_dec_i64(out, id);
    out.append(";\n}\n\n");
    assert(final(out)@ =~= old(out)@ + spec_gen_type_decl(name@, id));
}

} // verus!
