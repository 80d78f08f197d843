//! The stub generator: walks the projected manifest and deterministically
//! emits inert typed declarations — the version constant, one discriminant
//! per error type, one handle-kind declaration per type-table entry, the UI
//! option enumerant with its reverse string mapping, and one call stub per
//! representable function. Byte-identical manifest input yields
//! byte-identical output text: both tables are put into lexicographic key
//! order before emission, whatever order the manifest listed them in.

use vstd::prelude::*;
use vstd::string::StringExecFns;

use crate::emit::push_camel;
use crate::emit::push_dec_i64;
use crate::emit::spec_camel;
use crate::emit::spec_dec_chars_i64;
use crate::emit::spec_str_le;
use crate::emit::str_le;
use crate::manifest::Root;
use crate::manifest::SpecRoot;
use crate::manifest::SpecTypeEntry;
use crate::manifest::TypeEntry;
use crate::manifest::Version;
use crate::registry::push_type_decl;
use crate::registry::spec_gen_type_decl;

verus! {

/// Where a new error-table entry stands in an ordered table: before the
/// first entry whose key is not smaller.
pub open spec fn spec_insert_err(x: (Seq<char>, i64), s: Seq<(Seq<char>, i64)>) -> Seq<
    (Seq<char>, i64),
>
    decreases s,
{
    if s.len() == 0 {
        seq![x]
    } else if spec_str_le(x.0, s[0].0) {
        seq![x] + s
    } else {
        seq![s[0]] + spec_insert_err(x, s.subrange(1, s.len() as int))
    }
}

/// The error table in lexicographic key order.
pub open spec fn spec_sort_errs(s: Seq<(Seq<char>, i64)>) -> Seq<(Seq<char>, i64)>
    decreases s,
{
    if s.len() == 0 {
        Seq::empty()
    } else {
        spec_insert_err(s.last(), spec_sort_errs(s.subrange(0, s.len() - 1)))
    }
}

/// Where a new type-table entry stands in an ordered table.
pub open spec fn spec_insert_type(
    x: (Seq<char>, SpecTypeEntry),
    s: Seq<(Seq<char>, SpecTypeEntry)>,
) -> Seq<(Seq<char>, SpecTypeEntry)>
    decreases s,
{
    if s.len() == 0 {
        seq![x]
    } else if spec_str_le(x.0, s[0].0) {
        seq![x] + s
    } else {
        seq![s[0]] + spec_insert_type(x, s.subrange(1, s.len() as int))
    }
}

/// The type table in lexicographic key order.
pub open spec fn spec_sort_types(s: Seq<(Seq<char>, SpecTypeEntry)>) -> Seq<
    (Seq<char>, SpecTypeEntry),
>
    decreases s,
{
    if s.len() == 0 {
        Seq::empty()
    } else {
        spec_insert_type(s.last(), spec_sort_types(s.subrange(0, s.len() - 1)))
    }
}

/// Inserts an entry at its ordered position.
#[verifier::loop_isolation(false)]
fn insert_err(out: &mut Vec<(String, i64)>, x: (String, i64))
    ensures
        final(out).deep_view() == spec_insert_err((x.0@, x.1), old(out).deep_view()),
{
    let n = out.len();
    let ghost sv = out.deep_view();
    let ghost xv = (x.0@, x.1);
    let mut j: usize = 0;
    proof {
        assert(sv.subrange(0, 0) =~= Seq::<(Seq<char>, i64)>::empty());
        assert(sv.subrange(0, n as int) =~= sv);
        assert(Seq::<(Seq<char>, i64)>::empty() + spec_insert_err(xv, sv) =~= spec_insert_err(
            xv,
            sv,
        ));
    }
    while j < n && !str_le(x.0.as_str(), out[j].0.as_str())
        invariant
            0 <= j <= n,
            n == out@.len(),
            sv == out.deep_view(),
            sv.len() == n,
            xv == (x.0@, x.1),
            spec_insert_err(xv, sv) == sv.subrange(0, j as int) + spec_insert_err(
                xv,
                sv.subrange(j as int, n as int),
            ),
        decreases n - j,
    {
        proof {
            let t = sv.subrange(j as int, n as int);
            assert(t[0] == sv[j as int]);
            assert(sv[j as int] == (out@[j as int].0.deep_view(), out@[j as int].1.deep_view()));
            assert(t.subrange(1, t.len() as int) =~= sv.subrange(j + 1, n as int));
            assert(sv.subrange(0, j as int) + (seq![sv[j as int]] + spec_insert_err(
                xv,
                sv.subrange(j + 1, n as int),
            )) =~= sv.subrange(0, j + 1) + spec_insert_err(xv, sv.subrange(j + 1, n as int)));
        }
        j = j + 1;
    }
    proof {
        let t = sv.subrange(j as int, n as int);
        if j < n {
            assert(t[0] == sv[j as int]);
            assert(sv[j as int] == (out@[j as int].0.deep_view(), out@[j as int].1.deep_view()));
            assert(spec_insert_err(xv, t) == seq![xv] + t);
        } else {
            assert(t =~= Seq::<(Seq<char>, i64)>::empty());
        }
    }
    out.insert(j, x);
    proof {
        assert(final(out).deep_view() =~= sv.subrange(0, j as int) + spec_insert_err(
            xv,
            sv.subrange(j as int, n as int),
        ));
    }
}

/// The error table, cloned into lexicographic key order.
#[verifier::loop_isolation(false)]
pub fn sorted_errs(v: &Vec<(String, i64)>) -> (r: Vec<(String, i64)>)
    ensures
        r.deep_view() == spec_sort_errs(v.deep_view()),
{
    let n = v.len();
    let mut out: Vec<(String, i64)> = Vec::new();
    let mut i: usize = 0;
    proof {
        assert(v.deep_view().subrange(0, 0) =~= Seq::<(Seq<char>, i64)>::empty());
    }
    while i < n
        invariant
            0 <= i <= n,
            n == v@.len(),
            v.deep_view().len() == n,
            out.deep_view() == spec_sort_errs(v.deep_view().subrange(0, i as int)),
        decreases n - i,
    {
        proof {
            let vv = v.deep_view();
            assert(vv[i as int] == (v@[i as int].0.deep_view(), v@[i as int].1.deep_view()));
            assert(vv.subrange(0, i + 1).last() == vv[i as int]);
            assert(vv.subrange(0, i + 1).subrange(0, i as int) =~= vv.subrange(0, i as int));
        }
        let x = (v[i].0.clone(), v[i].1);
        insert_err(&mut out, x);
        i = i + 1;
    }
    proof {
        assert(v.deep_view().subrange(0, n as int) =~= v.deep_view());
    }
    out
}

/// Inserts a type-table entry at its ordered position.
#[verifier::loop_isolation(false)]
fn insert_type(out: &mut Vec<(String, TypeEntry)>, x: (String, TypeEntry))
    ensures
        final(out).deep_view() == spec_insert_type(
            (x.0@, x.1.deep_view()),
            old(out).deep_view(),
        ),
{
    let n = out.len();
    let ghost sv = out.deep_view();
    let ghost xv = (x.0@, x.1.deep_view());
    let mut j: usize = 0;
    proof {
        assert(sv.subrange(0, 0) =~= Seq::<(Seq<char>, SpecTypeEntry)>::empty());
        assert(sv.subrange(0, n as int) =~= sv);
        assert(Seq::<(Seq<char>, SpecTypeEntry)>::empty() + spec_insert_type(xv, sv)
            =~= spec_insert_type(xv, sv));
    }
    while j < n && !str_le(x.0.as_str(), out[j].0.as_str())
        invariant
            0 <= j <= n,
            n == out@.len(),
            sv == out.deep_view(),
            sv.len() == n,
            xv == (x.0@, x.1.deep_view()),
            spec_insert_type(xv, sv) == sv.subrange(0, j as int) + spec_insert_type(
                xv,
                sv.subrange(j as int, n as int),
            ),
        decreases n - j,
    {
        proof {
            let t = sv.subrange(j as int, n as int);
            assert(t[0] == sv[j as int]);
            assert(sv[j as int] == (out@[j as int].0.deep_view(), out@[j as int].1.deep_view()));
            assert(t.subrange(1, t.len() as int) =~= sv.subrange(j + 1, n as int));
            assert(sv.subrange(0, j as int) + (seq![sv[j as int]] + spec_insert_type(
                xv,
                sv.subrange(j + 1, n as int),
            )) =~= sv.subrange(0, j + 1) + spec_insert_type(xv, sv.subrange(j + 1, n as int)));
        }
        j = j + 1;
    }
    proof {
        let t = sv.subrange(j as int, n as int);
        if j < n {
            assert(t[0] == sv[j as int]);
            assert(sv[j as int] == (out@[j as int].0.deep_view(), out@[j as int].1.deep_view()));
            assert(spec_insert_type(xv, t) == seq![xv] + t);
        } else {
            assert(t =~= Seq::<(Seq<char>, SpecTypeEntry)>::empty());
        }
    }
    out.insert(j, x);
    proof {
        assert(final(out).deep_view() =~= sv.subrange(0, j as int) + spec_insert_type(
            xv,
            sv.subrange(j as int, n as int),
        ));
    }
}

/// The type table, cloned into lexicographic key order.
#[verifier::loop_isolation(false)]
pub fn sorted_types(v: &Vec<(String, TypeEntry)>) -> (r: Vec<(String, TypeEntry)>)
    ensures
        r.deep_view() == spec_sort_types(v.deep_view()),
{
    let n = v.len();
    let mut out: Vec<(String, TypeEntry)> = Vec::new();
    let mut i: usize = 0;
    proof {
        assert(v.deep_view().subrange(0, 0) =~= Seq::<(Seq<char>, SpecTypeEntry)>::empty());
    }
    while i < n
        invariant
            0 <= i <= n,
            n == v@.len(),
            v.deep_view().len() == n,
            out.deep_view() == spec_sort_types(v.deep_view().subrange(0, i as int)),
        decreases n - i,
    {
        proof {
            let vv = v.deep_view();
            assert(vv[i as int] == (v@[i as int].0.deep_view(), v@[i as int].1.deep_view()));
            assert(vv.subrange(0, i + 1).last() == vv[i as int]);
            assert(vv.subrange(0, i + 1).subrange(0, i as int) =~= vv.subrange(0, i as int));
        }
        let x = (v[i].0.clone(), TypeEntry { id: v[i].1.id, prefix: v[i].1.prefix.clone() });
        insert_type(&mut out, x);
        i = i + 1;
    }
    proof {
        assert(v.deep_view().subrange(0, n as int) =~= v.deep_view());
    }
    out
}

/// The version constant's declaration.
pub open spec fn spec_gen_version(v: Version) -> Seq<char> {
    "impl Version {\n    pub const CURRENT: Self = Self {\n        api_compatible: "@
        + spec_dec_chars_i64(v.api_compatible) + ",\n        api_level: "@ + spec_dec_chars_i64(
        v.api_level,
    ) + ",\n        api_prerelease: "@ + spec_bool_chars(v.api_prerelease)
        + ",\n        major: "@ + spec_dec_chars_i64(v.major) + ",\n        minor: "@
        + spec_dec_chars_i64(v.minor) + ",\n        patch: "@ + spec_dec_chars_i64(v.patch)
        + ",\n        prerelease: "@ + spec_bool_chars(v.prerelease) + ",\n    };\n}\n\n"@
}

/// The text of a boolean literal.
pub open spec fn spec_bool_chars(b: bool) -> Seq<char> {
    if b {
        "true"@
    } else {
        "false"@
    }
}

/// Appends a boolean literal.
fn push_bool(out: &mut String, b: bool)
    ensures
        final(out)@ == old(out)@ + spec_bool_chars(b),
{
    if b {
        out.append("true");
    } else {
        out.append("false");
    }
}

/// Appends the version constant's declaration.
pub fn push_version(out: &mut String, v: &Version)
    ensures
        final(out)@ == old(out)@ + spec_gen_version(*v),
{
    out.append("impl Version {\n    pub const CURRENT: Self = Self {\n        api_compatible: ");
    push_dec_i64(out, v.api_compatible);
    out.append(",\n        api_level: ");
    push_dec_i64(out, v.api_level);
    out.append(",\n        api_prerelease: ");
    push_bool(out, v.api_prerelease);
    out.append(",\n        major: ");
    push_dec_i64(out, v.major);
    out.append(",\n        minor: ");
    push_dec_i64(out, v.minor);
    out.append(",\n        patch: ");
    push_dec_i64(out, v.patch);
    out.append(",\n        prerelease: ");
    push_bool(out, v.prerelease);
    out.append(",\n    };\n}\n\n");
    assert(final(out)@ =~= old(out)@ + spec_gen_version(*v));
}

/// The variant lines of the error discriminant enumeration, one per entry.
pub open spec fn spec_gen_err_variants(es: Seq<(Seq<char>, i64)>) -> Seq<char>
    decreases es,
{
    if es.len() == 0 {
        Seq::empty()
    } else {
        "    "@ + es[0].0 + ",\n"@ + spec_gen_err_variants(es.subrange(1, es.len() as int))
    }
}

/// The match arms mapping each discriminant to its numeric id.
pub open spec fn spec_gen_err_arms(es: Seq<(Seq<char>, i64)>) -> Seq<char>
    decreases es,
{
    if es.len() == 0 {
        Seq::empty()
    } else {
        "            ErrorKind::"@ + es[0].0 + " => "@ + spec_dec_chars_i64(es[0].1) + ",\n"@
            + spec_gen_err_arms(es.subrange(1, es.len() as int))
    }
}

/// The error discriminants: one enumerant per table entry, carrying its
/// numeric id through an accessor.
pub open spec fn spec_gen_error_types(es: Seq<(Seq<char>, i64)>) -> Seq<char> {
    "pub enum ErrorKind {\n"@ + spec_gen_err_variants(es)
        + "}\n\nimpl ErrorKind {\n    pub fn id(self) -> i64 {\n        match self {\n"@
        + spec_gen_err_arms(es) + "        }\n    }\n}\n\n"@
}

/// Appends the error discriminants for an ordered table.
#[verifier::loop_isolation(false)]
pub fn push_error_types(out: &mut String, es: &Vec<(String, i64)>)
    ensures
        final(out)@ == old(out)@ + spec_gen_error_types(es.deep_view()),
{
    let n = es.len();
    let ghost ev = es.deep_view();
    out.append("pub enum ErrorKind {\n");
    let ghost base1 = out@;
    let mut i: usize = 0;
    proof {
        assert(ev.subrange(0, n as int) =~= ev);
        assert(base1 + Seq::<char>::empty() =~= base1);
    }
    while i < n
        invariant
            0 <= i <= n,
            n == es@.len(),
            ev == es.deep_view(),
            ev.len() == n,
            base1 + spec_gen_err_variants(ev) == out@ + spec_gen_err_variants(
                ev.subrange(i as int, n as int),
            ),
        decreases n - i,
    {
        proof {
            let t = ev.subrange(i as int, n as int);
            assert(t[0] == ev[i as int]);
            assert(ev[i as int] == (es@[i as int].0.deep_view(), es@[i as int].1.deep_view()));
            assert(t.subrange(1, t.len() as int) =~= ev.subrange(i + 1, n as int));
        }
        out.append("    ");
        out.append(es[i].0.as_str());
        out.append(",\n");
        i = i + 1;
    }
    proof {
        assert(ev.subrange(n as int, n as int) =~= Seq::<(Seq<char>, i64)>::empty());
        assert(out@ =~= base1 + spec_gen_err_variants(ev));
    }
    out.append("}\n\nimpl ErrorKind {\n    pub fn id(self) -> i64 {\n        match self {\n");
    let ghost base2 = out@;
    let mut i2: usize = 0;
    proof {
        assert(base2 + Seq::<char>::empty() =~= base2);
    }
    while i2 < n
        invariant
            0 <= i2 <= n,
            n == es@.len(),
            ev == es.deep_view(),
            ev.len() == n,
            base2 + spec_gen_err_arms(ev) == out@ + spec_gen_err_arms(
                ev.subrange(i2 as int, n as int),
            ),
        decreases n - i2,
    {
        proof {
            let t = ev.subrange(i2 as int, n as int);
            assert(t[0] == ev[i2 as int]);
            assert(ev[i2 as int] == (es@[i2 as int].0.deep_view(), es@[i2 as int].1.deep_view()));
            assert(t.subrange(1, t.len() as int) =~= ev.subrange(i2 + 1, n as int));
        }
        out.append("            ErrorKind::");
        out.append(es[i2].0.as_str());
        out.append(" => ");
        push_dec_i64(out, es[i2].1);
        out.append(",\n");
        i2 = i2 + 1;
    }
    proof {
        assert(ev.subrange(n as int, n as int) =~= Seq::<(Seq<char>, i64)>::empty());
        assert(out@ =~= base2 + spec_gen_err_arms(ev));
    }
    out.append("        }\n    }\n}\n\n");
    assert(final(out)@ =~= old(out)@ + spec_gen_error_types(ev));
}

/// The handle-kind declarations, one per ordered table entry, each
/// delegated to the registry.
pub open spec fn spec_gen_types(ts: Seq<(Seq<char>, SpecTypeEntry)>) -> Seq<char>
    decreases ts,
{
    if ts.len() == 0 {
        Seq::empty()
    } else {
        spec_gen_type_decl(ts[0].0, ts[0].1.id) + spec_gen_types(ts.subrange(1, ts.len() as int))
    }
}

/// Appends the handle-kind declarations for an ordered table.
#[verifier::loop_isolation(false)]
pub fn push_types(out: &mut String, ts: &Vec<(String, TypeEntry)>)
    ensures
        final(out)@ == old(out)@ + spec_gen_types(ts.deep_view()),
{
    let n = ts.len();
    let ghost tv = ts.deep_view();
    let ghost base = out@;
    let mut i: usize = 0;
    proof {
        assert(tv.subrange(0, n as int) =~= tv);
        assert(base + Seq::<char>::empty() =~= base);
    }
    while i < n
        invariant
            0 <= i <= n,
            n == ts@.len(),
            tv == ts.deep_view(),
            tv.len() == n,
            base + spec_gen_types(tv) == out@ + spec_gen_types(tv.subrange(i as int, n as int)),
        decreases n - i,
    {
        proof {
            let t = tv.subrange(i as int, n as int);
            assert(t[0] == tv[i as int]);
            assert(tv[i as int] == (ts@[i as int].0.deep_view(), ts@[i as int].1.deep_view()));
            assert(t.subrange(1, t.len() as int) =~= tv.subrange(i + 1, n as int));
        }
        push_type_decl(out, ts[i].0.as_str(), ts[i].1.id);
        i = i + 1;
    }
    proof {
        assert(tv.subrange(n as int, n as int) =~= Seq::<(Seq<char>, SpecTypeEntry)>::empty());
        assert(out@ =~= base + spec_gen_types(tv));
    }
}

/// The enumerant lines of the UI option enumeration, in manifest order.
pub open spec fn spec_gen_option_variants(os: Seq<Seq<char>>) -> Seq<char>
    decreases os,
{
    if os.len() == 0 {
        Seq::empty()
    } else {
        "    "@ + spec_camel(os[0]) + ",\n"@ + spec_gen_option_variants(
            os.subrange(1, os.len() as int),
        )
    }
}

/// The match arms of the reverse mapping, each enumerant back to the exact
/// raw option string.
pub open spec fn spec_gen_option_arms(os: Seq<Seq<char>>) -> Seq<char>
    decreases os,
{
    if os.len() == 0 {
        Seq::empty()
    } else {
        "            UiOption::"@ + spec_camel(os[0]) + " => \""@ + os[0] + "\",\n"@
            + spec_gen_option_arms(os.subrange(1, os.len() as int))
    }
}

/// The UI option enumeration with its reverse string mapping.
pub open spec fn spec_gen_ui_options(os: Seq<Seq<char>>) -> Seq<char> {
    "pub enum UiOption {\n"@ + spec_gen_option_variants(os)
        + "}\n\nimpl UiOption {\n    pub fn as_str(self) -> &str {\n        match self {\n"@
        + spec_gen_option_arms(os) + "        }\n    }\n}\n\n"@
}

/// Appends the UI option enumeration and its reverse mapping.
#[verifier::loop_isolation(false)]
pub fn push_ui_options(out: &mut String, os: &Vec<String>)
    ensures
        final(out)@ == old(out)@ + spec_gen_ui_options(os.deep_view()),
{
    let n = os.len();
    let ghost ov = os.deep_view();
    out.append("pub enum UiOption {\n");
    let ghost base1 = out@;
    let mut i: usize = 0;
    proof {
        assert(ov.subrange(0, n as int) =~= ov);
        assert(base1 + Seq::<char>::empty() =~= base1);
    }
    while i < n
        invariant
            0 <= i <= n,
            n == os@.len(),
            ov == os.deep_view(),
            ov.len() == n,
            base1 + spec_gen_option_variants(ov) == out@ + spec_gen_option_variants(
                ov.subrange(i as int, n as int),
            ),
        decreases n - i,
    {
        proof {
            let t = ov.subrange(i as int, n as int);
            assert(t[0] == ov[i as int]);
            assert(ov[i as int] == os@[i as int].deep_view());
            assert(t.subrange(1, t.len() as int) =~= ov.subrange(i + 1, n as int));
        }
        out.append("    ");
        push_camel(out, os[i].as_str());
        out.append(",\n");
        i = i + 1;
    }
    proof {
        assert(ov.subrange(n as int, n as int) =~= Seq::<Seq<char>>::empty());
        assert(out@ =~= base1 + spec_gen_option_variants(ov));
    }
    out.append("}\n\nimpl UiOption {\n    pub fn as_str(self) -> &str {\n        match self {\n");
    let ghost base2 = out@;
    let mut i2: usize = 0;
    proof {
        assert(base2 + Seq::<char>::empty() =~= base2);
    }
    while i2 < n
        invariant
            0 <= i2 <= n,
            n == os@.len(),
            ov == os.deep_view(),
            ov.len() == n,
            base2 + spec_gen_option_arms(ov) == out@ + spec_gen_option_arms(
                ov.subrange(i2 as int, n as int),
            ),
        decreases n - i2,
    {
        proof {
            let t = ov.subrange(i2 as int, n as int);
            assert(t[0] == ov[i2 as int]);
            assert(ov[i2 as int] == os@[i2 as int].deep_view());
            assert(t.subrange(1, t.len() as int) =~= ov.subrange(i2 + 1, n as int));
        }
        out.append("            UiOption::");
        push_camel(out, os[i2].as_str());
        out.append(" => \"");
        out.append(os[i2].as_str());
        out.append("\",\n");
        i2 = i2 + 1;
    }
    proof {
        assert(ov.subrange(n as int, n as int) =~= Seq::<Seq<char>>::empty());
        assert(out@ =~= base2 + spec_gen_option_arms(ov));
    }
    out.append("        }\n    }\n}\n\n");
    assert(final(out)@ =~= old(out)@ + spec_gen_ui_options(ov));
}

/// Whether a string opens with the given prefix.
pub open spec fn spec_starts_with(s: Seq<char>, p: Seq<char>) -> bool {
    s.len() >= p.len() && s.subrange(0, p.len() as int) == p
}

/// Tests whether a string opens with the given prefix.
#[verifier::loop_isolation(false)]
pub fn starts_with(s: &str, p: &str) -> (r: bool)
    ensures
        r == spec_starts_with(s@, p@),
{
    let ns = s.unicode_len();
    let np = p.unicode_len();
    if ns < np {
        return false;
    }
    let mut i: usize = 0;
    while i < np
        invariant
            0 <= i <= np,
            np <= ns,
            ns == s@.len(),
            np == p@.len(),
            forall|j: int| 0 <= j < i ==> s@[j] == p@[j],
        decreases np - i,
    {
        if s.get_char(i) != p.get_char(i) {
            proof {
                assert(s@.subrange(0, np as int)[i as int] != p@[i as int]);
            }
            return false;
        }
        i = i + 1;
    }
    proof {
        assert(s@.subrange(0, np as int) =~= p@);
    }
    true
}

/// The concrete type a scalar type-name maps to in parameter position: the
/// four concrete scalars, the dynamic value type for the generic object
/// category, and the name itself otherwise.
pub open spec fn spec_map_param_scalar(n: Seq<char>) -> Seq<char> {
    if n == "Boolean"@ {
        "bool"@
    } else if n == "Integer"@ {
        "i64"@
    } else if n == "Float"@ {
        "f64"@
    } else if n == "String"@ {
        "&str"@
    } else if n == "Object"@ {
        "BasicType"@
    } else {
        n
    }
}

/// The parameter type text of a parsed type-name: a fixed-size collection
/// for the fixed form, a lazily produced sequence for the dynamic form.
pub open spec fn spec_param_type_text(t: crate::grammar::SpecTypeName) -> Seq<char> {
    match t {
        crate::grammar::SpecTypeName::Scalar(n) => spec_map_param_scalar(n),
        crate::grammar::SpecTypeName::DynamicArray(n) => "impl Iterator<Item = "@
            + spec_map_param_scalar(n) + ">"@,
        crate::grammar::SpecTypeName::FixedArray { size, elem } => "["@ + spec_map_param_scalar(
            elem,
        ) + "; "@ + spec_dec_chars_i64(size) + "]"@,
    }
}

/// The concrete type a scalar type-name maps to in return position. The
/// generic object category is disambiguated by the function name's prefix:
/// the window, tabpage and buffer kinds each claim their own names, and
/// everything else returns the dynamic value type.
pub open spec fn spec_map_ret_scalar(n: Seq<char>, fname: Seq<char>) -> Seq<char> {
    if n == "Boolean"@ {
        "bool"@
    } else if n == "Integer"@ {
        "i64"@
    } else if n == "Float"@ {
        "f64"@
    } else if n == "Object"@ {
        if spec_starts_with(fname, "window"@) {
            "Window"@
        } else if spec_starts_with(fname, "tabpage"@) {
            "Tabpage"@
        } else if spec_starts_with(fname, "buffer"@) {
            "Buffer"@
        } else {
            "BasicType"@
        }
    } else {
        n
    }
}

/// The return clause text of a stub, empty for the void category.
pub open spec fn spec_ret_text(t: crate::grammar::SpecTypeName, fname: Seq<char>) -> Seq<char> {
    match t {
        crate::grammar::SpecTypeName::Scalar(n) => if n == "void"@ {
            Seq::empty()
        } else {
            "-> "@ + spec_map_ret_scalar(n, fname) + " "@
        },
        crate::grammar::SpecTypeName::DynamicArray(n) => "-> Vec<"@ + spec_map_ret_scalar(
            n,
            fname,
        ) + "> "@,
        crate::grammar::SpecTypeName::FixedArray { size, elem } => "-> ["@ + spec_map_ret_scalar(
            elem,
            fname,
        ) + "; "@ + spec_dec_chars_i64(size) + "] "@,
    }
}

/// A parameter name, escaped where it collides with a keyword.
pub open spec fn spec_escaped_name(n: Seq<char>) -> Seq<char> {
    if n == "fn"@ {
        "r#fn"@
    } else if n == "type"@ {
        "r#type"@
    } else {
        n
    }
}

/// Whether any parameter names the unrepresentable callback-reference
/// category; such a function gets no stub at all.
pub open spec fn spec_has_luaref(ps: Seq<crate::manifest::SpecParameter>) -> bool
    decreases ps,
{
    if ps.len() == 0 {
        false
    } else {
        (ps[0].ty is Scalar && ps[0].ty->Scalar_0 == "LuaRef"@) || spec_has_luaref(
            ps.subrange(1, ps.len() as int),
        )
    }
}

/// One parameter's slot in a stub signature.
pub open spec fn spec_gen_param(p: crate::manifest::SpecParameter) -> Seq<char> {
    ", "@ + spec_escaped_name(p.name) + ": "@ + spec_param_type_text(p.ty)
}

/// The parameter slots of a stub signature, in order.
pub open spec fn spec_gen_params(ps: Seq<crate::manifest::SpecParameter>) -> Seq<char>
    decreases ps,
{
    if ps.len() == 0 {
        Seq::empty()
    } else {
        spec_gen_param(ps[0]) + spec_gen_params(ps.subrange(1, ps.len() as int))
    }
}

/// One argument's encoding call in a stub body.
pub open spec fn spec_gen_arg(p: crate::manifest::SpecParameter) -> Seq<char> {
    " "@ + spec_escaped_name(p.name) + ".to_msgpack(w);"@
}

/// The argument encoding calls of a stub body, in order.
pub open spec fn spec_gen_args(ps: Seq<crate::manifest::SpecParameter>) -> Seq<char>
    decreases ps,
{
    if ps.len() == 0 {
        Seq::empty()
    } else {
        spec_gen_arg(ps[0]) + spec_gen_args(ps.subrange(1, ps.len() as int))
    }
}

/// One call stub: an asynchronous function that encodes its arguments,
/// performs the request/response exchange, and is typed by the mapped
/// return type.
pub open spec fn spec_gen_fn(f: crate::manifest::SpecFunction) -> Seq<char> {
    "    #[allow(unused)]\n    pub async fn "@ + f.name + "(neovim: &mut impl Neovim"@
        + spec_gen_params(f.parameters) + ") "@ + spec_ret_text(f.return_type, f.name)
        + "{\n        neovim.call(\""@ + f.name + "\", |w| {"@ + spec_gen_args(f.parameters)
        + " })\n    }\n\n"@
}

/// The stubs of every representable function, in manifest order; a
/// function with a callback-reference parameter is silently omitted.
pub open spec fn spec_gen_fns(fs: Seq<crate::manifest::SpecFunction>) -> Seq<char>
    decreases fs,
{
    if fs.len() == 0 {
        Seq::empty()
    } else {
        (if spec_has_luaref(fs[0].parameters) {
            Seq::<char>::empty()
        } else {
            spec_gen_fn(fs[0])
        }) + spec_gen_fns(fs.subrange(1, fs.len() as int))
    }
}

/// The generated function module.
pub open spec fn spec_gen_functions(fs: Seq<crate::manifest::SpecFunction>) -> Seq<char> {
    "pub mod functions {\n    use super::{Buffer, Window, Tabpage, Array, BasicType, Dictionary, Neovim};\n\n"@
        + spec_gen_fns(fs) + "}\n"@
}

/// Appends the parameter-position type of a scalar name.
fn push_param_scalar(out: &mut String, n: &str)
    ensures
        final(out)@ == old(out)@ + spec_map_param_scalar(n@),
{
    if crate::manifest::str_eq(n, "Boolean") {
        out.append("bool");
    } else if crate::manifest::str_eq(n, "Integer") {
        out.append("i64");
    } else if crate::manifest::str_eq(n, "Float") {
        out.append("f64");
    } else if crate::manifest::str_eq(n, "String") {
        out.append("&str");
    } else if crate::manifest::str_eq(n, "Object") {
        out.append("BasicType");
    } else {
        out.append(n);
    }
}

/// Appends the parameter type text of a parsed type-name.
fn push_param_type(out: &mut String, t: &crate::grammar::TypeName)
    ensures
        final(out)@ == old(out)@ + spec_param_type_text(t.deep_view()),
{
    match t {
        crate::grammar::TypeName::Scalar(n) => {
            push_param_scalar(out, n.as_str());
        },
        crate::grammar::TypeName::DynamicArray(n) => {
            out.append("impl Iterator<Item = ");
            push_param_scalar(out, n.as_str());
            out.append(">");
            assert(final(out)@ =~= old(out)@ + spec_param_type_text(t.deep_view()));
        },
        crate::grammar::TypeName::FixedArray { size, elem } => {
            out.append("[");
            push_param_scalar(out, elem.as_str());
            out.append("; ");
            push_dec_i64(out, *size);
            out.append("]");
            assert(final(out)@ =~= old(out)@ + spec_param_type_text(t.deep_view()));
        },
    }
}

/// Appends the return-position type of a scalar name.
fn push_ret_scalar(out: &mut String, n: &str, fname: &str)
    ensures
        final(out)@ == old(out)@ + spec_map_ret_scalar(n@, fname@),
{
    if crate::manifest::str_eq(n, "Boolean") {
        out.append("bool");
    } else if crate::manifest::str_eq(n, "Integer") {
        out.append("i64");
    } else if crate::manifest::str_eq(n, "Float") {
        out.append("f64");
    } else if crate::manifest::str_eq(n, "Object") {
        if starts_with(fname, "window") {
            out.append("Window");
        } else if starts_with(fname, "tabpage") {
            out.append("Tabpage");
        } else if starts_with(fname, "buffer") {
            out.append("Buffer");
        } else {
            out.append("BasicType");
        }
    } else {
        out.append(n);
    }
}

/// Appends the return clause of a stub.
fn push_ret_text(out: &mut String, t: &crate::grammar::TypeName, fname: &str)
    ensures
        final(out)@ == old(out)@ + spec_ret_text(t.deep_view(), fname@),
{
    match t {
        crate::grammar::TypeName::Scalar(n) => {
            if crate::manifest::str_eq(n.as_str(), "void") {
            } else {
                out.append("-> ");
                push_ret_scalar(out, n.as_str(), fname);
                out.append(" ");
                assert(final(out)@ =~= old(out)@ + spec_ret_text(t.deep_view(), fname@));
            }
        },
        crate::grammar::TypeName::DynamicArray(n) => {
            out.append("-> Vec<");
            push_ret_scalar(out, n.as_str(), fname);
            out.append("> ");
            assert(final(out)@ =~= old(out)@ + spec_ret_text(t.deep_view(), fname@));
        },
        crate::grammar::TypeName::FixedArray { size, elem } => {
            out.append("-> [");
            push_ret_scalar(out, elem.as_str(), fname);
            out.append("; ");
            push_dec_i64(out, *size);
            out.append("] ");
            assert(final(out)@ =~= old(out)@ + spec_ret_text(t.deep_view(), fname@));
        },
    }
}

/// Appends a parameter name, escaped where it collides with a keyword.
fn push_escaped(out: &mut String, n: &str)
    ensures
        final(out)@ == old(out)@ + spec_escaped_name(n@),
{
    if crate::manifest::str_eq(n, "fn") {
        out.append("r#fn");
    } else if crate::manifest::str_eq(n, "type") {
        out.append("r#type");
    } else {
        out.append(n);
    }
}

/// Whether any parameter names the callback-reference category.
#[verifier::loop_isolation(false)]
fn has_luaref(ps: &Vec<crate::manifest::Parameter>) -> (r: bool)
    ensures
        r == spec_has_luaref(ps.deep_view()),
{
    let n = ps.len();
    let mut i: usize = 0;
    proof {
        assert(ps.deep_view().subrange(0, n as int) =~= ps.deep_view());
    }
    while i < n
        invariant
            0 <= i <= n,
            n == ps@.len(),
            ps.deep_view().len() == n,
            spec_has_luaref(ps.deep_view()) == spec_has_luaref(
                ps.deep_view().subrange(i as int, n as int),
            ),
        decreases n - i,
    {
        proof {
            let pv = ps.deep_view();
            assert(pv.subrange(i as int, n as int)[0] == pv[i as int]);
            assert(pv[i as int] == ps@[i as int].deep_view());
            assert(pv.subrange(i as int, n as int).subrange(1, (n - i) as int) =~= pv.subrange(
                i + 1,
                n as int,
            ));
        }
        let hit = match &ps[i].ty {
            crate::grammar::TypeName::Scalar(sn) => crate::manifest::str_eq(sn.as_str(), "LuaRef"),
            _ => false,
        };
        if hit {
            return true;
        }
        i = i + 1;
    }
    proof {
        assert(ps.deep_view().subrange(n as int, n as int) =~= Seq::<
            crate::manifest::SpecParameter,
        >::empty());
    }
    false
}

/// Appends the parameter slots of a stub signature.
#[verifier::loop_isolation(false)]
fn push_params(out: &mut String, ps: &Vec<crate::manifest::Parameter>)
    ensures
        final(out)@ == old(out)@ + spec_gen_params(ps.deep_view()),
{
    let n = ps.len();
    let ghost pv = ps.deep_view();
    let ghost base = out@;
    let mut i: usize = 0;
    proof {
        assert(pv.subrange(0, n as int) =~= pv);
        assert(base + Seq::<char>::empty() =~= base);
    }
    while i < n
        invariant
            0 <= i <= n,
            n == ps@.len(),
            pv == ps.deep_view(),
            pv.len() == n,
            base + spec_gen_params(pv) == out@ + spec_gen_params(
                pv.subrange(i as int, n as int),
            ),
        decreases n - i,
    {
        proof {
            let t = pv.subrange(i as int, n as int);
            assert(t[0] == pv[i as int]);
            assert(pv[i as int] == ps@[i as int].deep_view());
            assert(t.subrange(1, t.len() as int) =~= pv.subrange(i + 1, n as int));
        }
        out.append(", ");
        push_escaped(out, ps[i].name.as_str());
        out.append(": ");
        push_param_type(out, &ps[i].ty);
        i = i + 1;
    }
    proof {
        assert(pv.subrange(n as int, n as int) =~= Seq::<crate::manifest::SpecParameter>::empty());
        assert(final(out)@ =~= old(out)@ + spec_gen_params(pv));
    }
}

/// Appends the argument encoding calls of a stub body.
#[verifier::loop_isolation(false)]
fn push_args(out: &mut String, ps: &Vec<crate::manifest::Parameter>)
    ensures
        final(out)@ == old(out)@ + spec_gen_args(ps.deep_view()),
{
    let n = ps.len();
    let ghost pv = ps.deep_view();
    let ghost base = out@;
    let mut i: usize = 0;
    proof {
        assert(pv.subrange(0, n as int) =~= pv);
        assert(base + Seq::<char>::empty() =~= base);
    }
    while i < n
        invariant
            0 <= i <= n,
            n == ps@.len(),
            pv == ps.deep_view(),
            pv.len() == n,
            base + spec_gen_args(pv) == out@ + spec_gen_args(pv.subrange(i as int, n as int)),
        decreases n - i,
    {
        proof {
            let t = pv.subrange(i as int, n as int);
            assert(t[0] == pv[i as int]);
            assert(pv[i as int] == ps@[i as int].deep_view());
            assert(t.subrange(1, t.len() as int) =~= pv.subrange(i + 1, n as int));
        }
        out.append(" ");
        push_escaped(out, ps[i].name.as_str());
        out.append(".to_msgpack(w);");
        i = i + 1;
    }
    proof {
        assert(pv.subrange(n as int, n as int) =~= Seq::<crate::manifest::SpecParameter>::empty());
        assert(final(out)@ =~= old(out)@ + spec_gen_args(pv));
    }
}

/// Appends one call stub.
fn push_fn(out: &mut String, f: &crate::manifest::Function)
    ensures
        final(out)@ == old(out)@ + spec_gen_fn(f.deep_view()),
{
    out.append("    #[allow(unused)]\n    pub async fn ");
    out.append(f.name.as_str());
    out.append("(neovim: &mut impl Neovim");
    push_params(out, &f.parameters);
    out.append(") ");
    push_ret_text(out, &f.return_type, f.name.as_str());
    out.append("{\n        neovim.call(\"");
    out.append(f.name.as_str());
    out.append("\", |w| {");
    push_args(out, &f.parameters);
    out.append(" })\n    }\n\n");
    assert(final(out)@ =~= old(out)@ + spec_gen_fn(f.deep_view()));
}

/// Appends the generated function module.
#[verifier::loop_isolation(false)]
pub fn push_functions(out: &mut String, fs: &Vec<crate::manifest::Function>)
    ensures
        final(out)@ == old(out)@ + spec_gen_functions(fs.deep_view()),
{
    let n = fs.len();
    let ghost fv = fs.deep_view();
    out.append(
        "pub mod functions {\n    use super::{Buffer, Window, Tabpage, Array, BasicType, Dictionary, Neovim};\n\n",
    );
    let ghost base = out@;
    let mut i: usize = 0;
    proof {
        assert(fv.subrange(0, n as int) =~= fv);
        assert(base + Seq::<char>::empty() =~= base);
    }
    while i < n
        invariant
            0 <= i <= n,
            n == fs@.len(),
            fv == fs.deep_view(),
            fv.len() == n,
            base + spec_gen_fns(fv) == out@ + spec_gen_fns(fv.subrange(i as int, n as int)),
        decreases n - i,
    {
        proof {
            let t = fv.subrange(i as int, n as int);
            assert(t[0] == fv[i as int]);
            assert(fv[i as int] == fs@[i as int].deep_view());
            assert(t.subrange(1, t.len() as int) =~= fv.subrange(i + 1, n as int));
        }
        if !has_luaref(&fs[i].parameters) {
            push_fn(out, &fs[i]);
        } else {
            proof {
                assert(Seq::<char>::empty() + spec_gen_fns(fv.subrange(i + 1, n as int))
                    =~= spec_gen_fns(fv.subrange(i + 1, n as int)));
            }
        }
        i = i + 1;
    }
    proof {
        assert(fv.subrange(n as int, n as int) =~= Seq::<crate::manifest::SpecFunction>::empty());
        assert(out@ =~= base + spec_gen_fns(fv));
    }
    out.append("}\n");
    assert(final(out)@ =~= old(out)@ + spec_gen_functions(fv));
}

/// The whole generated output text for one projected manifest.
pub open spec fn spec_generate(root: SpecRoot) -> Seq<char> {
    spec_gen_version(root.version) + spec_gen_error_types(spec_sort_errs(root.error_types))
        + spec_gen_types(spec_sort_types(root.types)) + spec_gen_ui_options(root.ui_options)
        + spec_gen_functions(root.functions)
}

/// Emits the whole generated output for a projected manifest: the version
/// constant, the error discriminants and handle-kind declarations with
/// their tables in lexicographic key order, the UI option enumeration with
/// its reverse mapping, and one stub per representable function.
pub fn generate(root: &Root) -> (out: String)
    ensures
        out@ == spec_generate(root.deep_view()),
{
    let mut out = String::new();
    push_version(&mut out, &root.version);
    let errs = sorted_errs(&root.error_types);
    push_error_types(&mut out, &errs);
    let types = sorted_types(&root.types);
    push_types(&mut out, &types);
    push_ui_options(&mut out, &root.ui_options);
    push_functions(&mut out, &root.functions);
    assert(out@ =~= spec_generate(root.deep_view()));
    out
}

/// Why a generation pass failed: the manifest bytes did not decode, or the
/// decoded value tree did not have the manifest's shape. The generator
/// itself never fails on a structurally well-formed manifest.
#[derive(Debug, Clone, Copy, PartialEq, Eq, Structural)]
pub enum GenerateError {
    Decode(crate::error::FromMsgpackError),
    Manifest(crate::manifest::ManifestError),
}

/// The whole pass as a function of the manifest bytes alone: decode one
/// value, project it, emit. Byte-identical input therefore yields
/// byte-identical output text.
pub open spec fn spec_generate_from_manifest(bytes: Seq<u8>) -> Result<Seq<char>, GenerateError> {
    match crate::decode::spec_decode(bytes, 0) {
        Err(e) => Err(GenerateError::Decode(e)),
        Ok(vc) => match crate::manifest::spec_root_of(vc.0) {
            Err(e) => Err(GenerateError::Manifest(e)),
            Ok(root) => Ok(spec_generate(root)),
        },
    }
}

/// Runs one whole generation pass over manifest bytes.
pub fn generate_from_manifest(bytes: &Vec<u8>) -> (r: Result<String, GenerateError>)
    ensures
        match r {
            Ok(out) => spec_generate_from_manifest(bytes@) == Ok::<Seq<char>, GenerateError>(out@),
            Err(e) => spec_generate_from_manifest(bytes@) == Err::<Seq<char>, GenerateError>(e),
        },
{
    let v = match crate::decode::decode_value(bytes, 0) {
        Ok(vp) => vp.0,
        Err(e) => {
            return Err(GenerateError::Decode(e));
        },
    };
    let root = match crate::manifest::root_of(&v) {
        Ok(root) => root,
        Err(e) => {
            return Err(GenerateError::Manifest(e));
        },
    };
    Ok(generate(&root))
}

/// Determinism: two generation runs over byte-identical manifest input
/// produce byte-identical output text, because the whole pass is a
/// function of the bytes alone.
pub proof fn lemma_generate_deterministic(b1: Seq<u8>, b2: Seq<u8>)
    requires
        b1 == b2,
    ensures
        spec_generate_from_manifest(b1) == spec_generate_from_manifest(b2),
{
}

/// The raw option string whose enumerant is `ident`, scanning in manifest
/// order.
pub open spec fn spec_option_for_ident(os: Seq<Seq<char>>, ident: Seq<char>) -> Option<Seq<char>>
    decreases os,
{
    if os.len() == 0 {
        None
    } else if spec_camel(os[0]) == ident {
        Some(os[0])
    } else {
        spec_option_for_ident(os.subrange(1, os.len() as int), ident)
    }
}

/// Decodes the reverse mapping: the raw option string for an enumerant
/// identifier.
#[verifier::loop_isolation(false)]
pub fn option_for_ident<'a>(os: &'a Vec<String>, ident: &str) -> (r: Option<&'a String>)
    ensures
        match r {
            Some(s) => spec_option_for_ident(os.deep_view(), ident@) == Some(s@),
            None => spec_option_for_ident(os.deep_view(), ident@) is None,
        },
{
    let n = os.len();
    let mut i: usize = 0;
    proof {
        assert(os.deep_view().subrange(0, n as int) =~= os.deep_view());
    }
    while i < n
        invariant
            0 <= i <= n,
            n == os@.len(),
            os.deep_view().len() == n,
            spec_option_for_ident(os.deep_view(), ident@) == spec_option_for_ident(
                os.deep_view().subrange(i as int, n as int),
                ident@,
            ),
        decreases n - i,
    {
        proof {
            let ov = os.deep_view();
            assert(ov.subrange(i as int, n as int)[0] == ov[i as int]);
            assert(ov[i as int] == os@[i as int].deep_view());
            assert(ov.subrange(i as int, n as int).subrange(1, (n - i) as int) =~= ov.subrange(
                i + 1,
                n as int,
            ));
        }
        let mut cam = String::new();
        push_camel(&mut cam, os[i].as_str());
        proof {
            assert(Seq::<char>::empty() + spec_camel(os@[i as int]@) =~= spec_camel(
                os@[i as int]@,
            ));
        }
        if crate::manifest::str_eq(cam.as_str(), ident) {
            return Some(&os[i]);
        }
        i = i + 1;
    }
    proof {
        assert(os.deep_view().subrange(n as int, n as int) =~= Seq::<Seq<char>>::empty());
    }
    None
}

/// UI-option bijection: when the normalized identifiers of the raw option
/// strings are pairwise distinct, decoding the reverse mapping for an
/// option's enumerant returns exactly that option.
pub proof fn lemma_ui_option_bijection(os: Seq<Seq<char>>, i: int)
    requires
        0 <= i < os.len(),
        forall|a: int, b: int|
            0 <= a < b < os.len() ==> spec_camel(#[trigger] os[a]) != spec_camel(#[trigger] os[b]),
    ensures
        spec_option_for_ident(os, spec_camel(os[i])) == Some(os[i]),
    decreases os,
{
    if i == 0 {
    } else {
        assert(spec_camel(os[0]) != spec_camel(os[i]));
        let rest = os.subrange(1, os.len() as int);
        assert(forall|a: int, b: int|
            0 <= a < b < rest.len() ==> spec_camel(#[trigger] rest[a]) != spec_camel(
                #[trigger] rest[b],
            )) by {
            assert(forall|a: int| 0 <= a < rest.len() ==> rest[a] == os[a + 1]);
        }
        lemma_ui_option_bijection(rest, i - 1);
        assert(rest[i - 1] == os[i]);
    }
}

} // verus!
