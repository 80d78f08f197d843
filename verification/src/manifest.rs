//! The manifest's descriptor structures, and their projection out of the
//! decoded value tree: the version record, the error-type and handle-kind
//! tables, the function and event descriptors, and the UI option list.

use vstd::prelude::*;

use crate::grammar::SpecTypeName;
use crate::grammar::TypeName;
use crate::grammar::parse_type_name;
use crate::grammar::spec_parse_type_name;
use crate::value::BasicType;
use crate::value::SpecValue;

verus! {

/// The seven-field version record, captured once from the manifest and
/// baked into generated output as a constant.
#[derive(Debug, Clone, Copy, PartialEq, Eq, Structural)]
pub struct Version {
    pub api_compatible: i64,
    pub api_level: i64,
    pub api_prerelease: bool,
    pub major: i64,
    pub minor: i64,
    pub patch: i64,
    pub prerelease: bool,
}

impl View for Version {
    type V = Version;

    open spec fn view(&self) -> Version {
        *self
    }
}

impl DeepView for Version {
    type V = Version;

    open spec fn deep_view(&self) -> Version {
        *self
    }
}

impl DeepView for TypeName {
    type V = SpecTypeName;

    open spec fn deep_view(&self) -> SpecTypeName {
        self.view()
    }
}

/// One parameter of a procedure: its type-name token, parsed, and its name.
#[derive(Debug, Clone, PartialEq, Eq)]
pub struct Parameter {
    pub ty: TypeName,
    pub name: String,
}

/// The model of a parameter.
pub struct SpecParameter {
    pub ty: SpecTypeName,
    pub name: Seq<char>,
}

impl DeepView for Parameter {
    type V = SpecParameter;

    open spec fn deep_view(&self) -> SpecParameter {
        SpecParameter { ty: self.ty.deep_view(), name: self.name@ }
    }
}

/// One procedure the application exposes: name, ordered parameters, return
/// type, the version it appeared in, the version that deprecated it if any,
/// and whether it is a method.
#[derive(Debug, Clone, PartialEq, Eq)]
pub struct Function {
    pub method: bool,
    pub name: String,
    pub parameters: Vec<Parameter>,
    pub return_type: TypeName,
    pub since: i64,
    pub deprecated_since: Option<i64>,
}

/// The model of a function descriptor.
pub struct SpecFunction {
    pub method: bool,
    pub name: Seq<char>,
    pub parameters: Seq<SpecParameter>,
    pub return_type: SpecTypeName,
    pub since: i64,
    pub deprecated_since: Option<i64>,
}

impl DeepView for Function {
    type V = SpecFunction;

    open spec fn deep_view(&self) -> SpecFunction {
        SpecFunction {
            method: self.method,
            name: self.name@,
            parameters: self.parameters.deep_view(),
            return_type: self.return_type.deep_view(),
            since: self.since,
            deprecated_since: self.deprecated_since,
        }
    }
}

/// One UI event: name, ordered parameters, introduced-version ordinal.
#[derive(Debug, Clone, PartialEq, Eq)]
pub struct UiEvent {
    pub name: String,
    pub parameters: Vec<Parameter>,
    pub since: i64,
}

/// The model of a UI event descriptor.
pub struct SpecUiEvent {
    pub name: Seq<char>,
    pub parameters: Seq<SpecParameter>,
    pub since: i64,
}

impl DeepView for UiEvent {
    type V = SpecUiEvent;

    open spec fn deep_view(&self) -> SpecUiEvent {
        SpecUiEvent { name: self.name@, parameters: self.parameters.deep_view(), since: self.since }
    }
}

/// One handle kind of the type table: its wire tag and the textual prefix
/// that marks the procedures returning it.
#[derive(Debug, Clone, PartialEq, Eq)]
pub struct TypeEntry {
    pub id: i64,
    pub prefix: String,
}

/// The model of a type-table entry.
pub struct SpecTypeEntry {
    pub id: i64,
    pub prefix: Seq<char>,
}

impl DeepView for TypeEntry {
    type V = SpecTypeEntry;

    open spec fn deep_view(&self) -> SpecTypeEntry {
        SpecTypeEntry { id: self.id, prefix: self.prefix@ }
    }
}

/// The whole decoded manifest, projected onto closed structures. The two
/// tables keep the order in which the manifest listed their entries; the
/// generator orders them itself before emission.
#[derive(Debug, Clone, PartialEq, Eq)]
pub struct Root {
    pub version: Version,
    pub error_types: Vec<(String, i64)>,
    pub types: Vec<(String, TypeEntry)>,
    pub functions: Vec<Function>,
    pub ui_options: Vec<String>,
    pub ui_events: Vec<UiEvent>,
}

/// The model of the projected manifest.
pub struct SpecRoot {
    pub version: Version,
    pub error_types: Seq<(Seq<char>, i64)>,
    pub types: Seq<(Seq<char>, SpecTypeEntry)>,
    pub functions: Seq<SpecFunction>,
    pub ui_options: Seq<Seq<char>>,
    pub ui_events: Seq<SpecUiEvent>,
}

impl DeepView for Root {
    type V = SpecRoot;

    open spec fn deep_view(&self) -> SpecRoot {
        SpecRoot {
            version: self.version,
            error_types: self.error_types.deep_view(),
            types: self.types.deep_view(),
            functions: self.functions.deep_view(),
            ui_options: self.ui_options.deep_view(),
            ui_events: self.ui_events.deep_view(),
        }
    }
}

/// A manifest value whose shape does not match the structure expected of
/// it. Fatal to the whole generation pass.
#[derive(Debug, Clone, Copy, PartialEq, Eq, Structural)]
pub enum ManifestError {
    Shape,
}

/// The first value a mapping holds under a string key.
pub open spec fn spec_dict_get(es: Seq<(SpecValue, SpecValue)>, key: Seq<char>) -> Option<
    SpecValue,
>
    decreases es,
{
    if es.len() == 0 {
        None
    } else if es[0].0 == SpecValue::String(key) {
        Some(es[0].1)
    } else {
        spec_dict_get(es.subrange(1, es.len() as int), key)
    }
}

/// Whether two strings hold the same characters.
#[verifier::loop_isolation(false)]
pub fn str_eq(a: &str, b: &str) -> (r: bool)
    ensures
        r == (a@ == b@),
{
    let na = a.unicode_len();
    let nb = b.unicode_len();
    if na != nb {
        return false;
    }
    let mut i: usize = 0;
    while i < na
        invariant
            0 <= i <= na,
            na == a@.len() == b@.len(),
            forall|j: int| 0 <= j < i ==> a@[j] == b@[j],
        decreases na - i,
    {
        if a.get_char(i) != b.get_char(i) {
            return false;
        }
        i = i + 1;
    }
    proof {
        assert(a@ =~= b@);
    }
    true
}

/// Looks a string key up in a dictionary's pairs, front to back.
#[verifier::loop_isolation(false)]
fn dict_get<'a>(d: &'a Vec<(BasicType, BasicType)>, key: &str) -> (r: Option<&'a BasicType>)
    ensures
        match r {
            Some(v) => spec_dict_get(d.deep_view(), key@) == Some(v.deep_view()),
            None => spec_dict_get(d.deep_view(), key@) is None,
        },
{
    let n = d.len();
    let mut i: usize = 0;
    proof {
        assert(d.deep_view().subrange(0, n as int) =~= d.deep_view());
    }
    while i < n
        invariant
            0 <= i <= n,
            n == d@.len(),
            d.deep_view().len() == n,
            spec_dict_get(d.deep_view(), key@) == spec_dict_get(
                d.deep_view().subrange(i as int, n as int),
                key@,
            ),
        decreases n - i,
    {
        let hit = match &d[i].0 {
            BasicType::String(s) => str_eq(s.as_str(), key),
            _ => false,
        };
        proof {
            let dv = d.deep_view();
            assert(dv[i as int] == (d@[i as int].0.deep_view(), d@[i as int].1.deep_view()));
            assert(dv.subrange(i as int, n as int)[0] == dv[i as int]);
            assert(dv.subrange(i as int, n as int).subrange(1, (n - i) as int) =~= dv.subrange(
                i + 1,
                n as int,
            ));
        }
        if hit {
            return Some(&d[i].1);
        }
        proof {
            let dv = d.deep_view();
            assert(dv[i as int].0 != SpecValue::String(key@)) by {
                match d@[i as int].0 {
                    BasicType::String(_) => {},
                    _ => {},
                }
            }
        }
        i = i + 1;
    }
    proof {
        assert(d.deep_view().subrange(n as int, n as int) =~= Seq::<(SpecValue, SpecValue)>::empty());
    }
    None
}

/// The integer a mapping holds under `key`.
pub open spec fn spec_get_i64(es: Seq<(SpecValue, SpecValue)>, key: Seq<char>) -> Result<
    i64,
    ManifestError,
> {
    match spec_dict_get(es, key) {
        Some(SpecValue::Integer(i)) => Ok(i),
        _ => Err(ManifestError::Shape),
    }
}

/// The boolean a mapping holds under `key`.
pub open spec fn spec_get_bool(es: Seq<(SpecValue, SpecValue)>, key: Seq<char>) -> Result<
    bool,
    ManifestError,
> {
    match spec_dict_get(es, key) {
        Some(SpecValue::Boolean(b)) => Ok(b),
        _ => Err(ManifestError::Shape),
    }
}

/// The string a mapping holds under `key`.
pub open spec fn spec_get_str(es: Seq<(SpecValue, SpecValue)>, key: Seq<char>) -> Result<
    Seq<char>,
    ManifestError,
> {
    match spec_dict_get(es, key) {
        Some(SpecValue::String(s)) => Ok(s),
        _ => Err(ManifestError::Shape),
    }
}

/// The sequence a mapping holds under `key`.
pub open spec fn spec_get_array(es: Seq<(SpecValue, SpecValue)>, key: Seq<char>) -> Result<
    Seq<SpecValue>,
    ManifestError,
> {
    match spec_dict_get(es, key) {
        Some(SpecValue::Array(a)) => Ok(a),
        _ => Err(ManifestError::Shape),
    }
}

/// The mapping a mapping holds under `key`.
pub open spec fn spec_get_dict(es: Seq<(SpecValue, SpecValue)>, key: Seq<char>) -> Result<
    Seq<(SpecValue, SpecValue)>,
    ManifestError,
> {
    match spec_dict_get(es, key) {
        Some(SpecValue::Dictionary(d)) => Ok(d),
        _ => Err(ManifestError::Shape),
    }
}

fn get_i64(d: &Vec<(BasicType, BasicType)>, key: &str) -> (r: Result<i64, ManifestError>)
    ensures
        r == spec_get_i64(d.deep_view(), key@),
{
    match dict_get(d, key) {
        Some(BasicType::Integer(i)) => Ok(*i),
        _ => Err(ManifestError::Shape),
    }
}

fn get_bool(d: &Vec<(BasicType, BasicType)>, key: &str) -> (r: Result<bool, ManifestError>)
    ensures
        r == spec_get_bool(d.deep_view(), key@),
{
    match dict_get(d, key) {
        Some(BasicType::Boolean(b)) => Ok(*b),
        _ => Err(ManifestError::Shape),
    }
}

fn get_str<'a>(d: &'a Vec<(BasicType, BasicType)>, key: &str) -> (r: Result<&'a String, ManifestError>)
    ensures
        match r {
            Ok(s) => spec_get_str(d.deep_view(), key@) == Ok::<Seq<char>, ManifestError>(s@),
            Err(e) => spec_get_str(d.deep_view(), key@) == Err::<Seq<char>, ManifestError>(e),
        },
{
    match dict_get(d, key) {
        Some(BasicType::String(s)) => Ok(s),
        _ => Err(ManifestError::Shape),
    }
}

fn get_array<'a>(d: &'a Vec<(BasicType, BasicType)>, key: &str) -> (r: Result<
    &'a Vec<BasicType>,
    ManifestError,
>)
    ensures
        match r {
            Ok(a) => spec_get_array(d.deep_view(), key@) == Ok::<Seq<SpecValue>, ManifestError>(
                a.deep_view(),
            ),
            Err(e) => spec_get_array(d.deep_view(), key@) == Err::<Seq<SpecValue>, ManifestError>(
                e,
            ),
        },
{
    match dict_get(d, key) {
        Some(BasicType::Array(a)) => {
            proof {
                crate::value::lemma_spec_values_of(a@);
                assert(a.deep_view() =~= crate::value::spec_values_of(a@));
            }
            Ok(a)
        },
        _ => Err(ManifestError::Shape),
    }
}

fn get_dict<'a>(d: &'a Vec<(BasicType, BasicType)>, key: &str) -> (r: Result<
    &'a Vec<(BasicType, BasicType)>,
    ManifestError,
>)
    ensures
        match r {
            Ok(a) => spec_get_dict(d.deep_view(), key@) == Ok::<
                Seq<(SpecValue, SpecValue)>,
                ManifestError,
            >(a.deep_view()),
            Err(e) => spec_get_dict(d.deep_view(), key@) == Err::<
                Seq<(SpecValue, SpecValue)>,
                ManifestError,
            >(e),
        },
{
    match dict_get(d, key) {
        Some(BasicType::Dictionary(a)) => {
            proof {
                crate::value::lemma_spec_entries_of(a@);
                assert(a.deep_view() =~= crate::value::spec_entries_of(a@));
            }
            Ok(a)
        },
        _ => Err(ManifestError::Shape),
    }
}

/// What the version record of a manifest mapping is: its seven scalar
/// fields, each of the right category.
pub open spec fn spec_version_of(v: SpecValue) -> Result<Version, ManifestError> {
    match v {
        SpecValue::Dictionary(es) => {
            if spec_get_i64(es, "api_compatible"@) is Ok && spec_get_i64(es, "api_level"@) is Ok
                && spec_get_bool(es, "api_prerelease"@) is Ok && spec_get_i64(es, "major"@) is Ok
                && spec_get_i64(es, "minor"@) is Ok && spec_get_i64(es, "patch"@) is Ok
                && spec_get_bool(es, "prerelease"@) is Ok {
                Ok(
                    Version {
                        api_compatible: spec_get_i64(es, "api_compatible"@)->Ok_0,
                        api_level: spec_get_i64(es, "api_level"@)->Ok_0,
                        api_prerelease: spec_get_bool(es, "api_prerelease"@)->Ok_0,
                        major: spec_get_i64(es, "major"@)->Ok_0,
                        minor: spec_get_i64(es, "minor"@)->Ok_0,
                        patch: spec_get_i64(es, "patch"@)->Ok_0,
                        prerelease: spec_get_bool(es, "prerelease"@)->Ok_0,
                    },
                )
            } else {
                Err(ManifestError::Shape)
            }
        },
        _ => Err(ManifestError::Shape),
    }
}

/// Projects the version record out of its manifest mapping.
pub fn version_of(v: &BasicType) -> (r: Result<Version, ManifestError>)
    ensures
        r == spec_version_of(v.deep_view()),
{
    let d = match v {
        BasicType::Dictionary(d) => d,
        _ => {
            return Err(ManifestError::Shape);
        },
    };
    proof {
        crate::value::lemma_spec_entries_of(d@);
        assert(d.deep_view() =~= crate::value::spec_entries_of(d@));
    }
    let api_compatible = match get_i64(d, "api_compatible") {
        Ok(x) => x,
        Err(e) => {
            return Err(e);
        },
    };
    let api_level = match get_i64(d, "api_level") {
        Ok(x) => x,
        Err(e) => {
            return Err(e);
        },
    };
    let api_prerelease = match get_bool(d, "api_prerelease") {
        Ok(x) => x,
        Err(e) => {
            return Err(e);
        },
    };
    let major = match get_i64(d, "major") {
        Ok(x) => x,
        Err(e) => {
            return Err(e);
        },
    };
    let minor = match get_i64(d, "minor") {
        Ok(x) => x,
        Err(e) => {
            return Err(e);
        },
    };
    let patch = match get_i64(d, "patch") {
        Ok(x) => x,
        Err(e) => {
            return Err(e);
        },
    };
    let prerelease = match get_bool(d, "prerelease") {
        Ok(x) => x,
        Err(e) => {
            return Err(e);
        },
    };
    Ok(
        Version {
            api_compatible,
            api_level,
            api_prerelease,
            major,
            minor,
            patch,
            prerelease,
        },
    )
}

/// What one parameter descriptor is: a two-element sequence of the
/// type-name token, which must parse, and the parameter name.
pub open spec fn spec_param_of(v: SpecValue) -> Result<SpecParameter, ManifestError> {
    match v {
        SpecValue::Array(a) => {
            if a.len() == 2 {
                match (a[0], a[1]) {
                    (SpecValue::String(tok), SpecValue::String(nm)) => match spec_parse_type_name(
                        tok,
                    ) {
                        Ok(t) => Ok(SpecParameter { ty: t, name: nm }),
                        Err(_) => Err(ManifestError::Shape),
                    },
                    _ => Err(ManifestError::Shape),
                }
            } else {
                Err(ManifestError::Shape)
            }
        },
        _ => Err(ManifestError::Shape),
    }
}

/// What a parameter list is, elementwise.
pub open spec fn spec_params_of(s: Seq<SpecValue>) -> Result<Seq<SpecParameter>, ManifestError>
    decreases s,
{
    if s.len() == 0 {
        Ok(Seq::empty())
    } else {
        match spec_param_of(s[0]) {
            Err(e) => Err(e),
            Ok(p) => match spec_params_of(s.subrange(1, s.len() as int)) {
                Err(e) => Err(e),
                Ok(ps) => Ok(seq![p] + ps),
            },
        }
    }
}

/// Projects one parameter descriptor.
fn param_of(v: &BasicType) -> (r: Result<Parameter, ManifestError>)
    ensures
        match r {
            Ok(p) => spec_param_of(v.deep_view()) == Ok::<SpecParameter, ManifestError>(
                p.deep_view(),
            ),
            Err(e) => spec_param_of(v.deep_view()) == Err::<SpecParameter, ManifestError>(e),
        },
{
    let a = match v {
        BasicType::Array(a) => a,
        _ => {
            return Err(ManifestError::Shape);
        },
    };
    proof {
        crate::value::lemma_spec_values_of(a@);
        assert(a.deep_view() =~= crate::value::spec_values_of(a@));
    }
    if a.len() != 2 {
        return Err(ManifestError::Shape);
    }
    let tok = match &a[0] {
        BasicType::String(s) => s,
        _ => {
            return Err(ManifestError::Shape);
        },
    };
    let nm = match &a[1] {
        BasicType::String(s) => s,
        _ => {
            return Err(ManifestError::Shape);
        },
    };
    match parse_type_name(tok.as_str()) {
        Ok(t) => Ok(Parameter { name: nm.clone(), ty: t }),
        Err(_) => Err(ManifestError::Shape),
    }
}

/// Projects an ordered parameter list.
#[verifier::loop_isolation(false)]
fn params_of(a: &Vec<BasicType>) -> (r: Result<Vec<Parameter>, ManifestError>)
    ensures
        match r {
            Ok(ps) => spec_params_of(a.deep_view()) == Ok::<Seq<SpecParameter>, ManifestError>(
                ps.deep_view(),
            ),
            Err(e) => spec_params_of(a.deep_view()) == Err::<Seq<SpecParameter>, ManifestError>(e),
        },
{
    let n = a.len();
    let mut ps: Vec<Parameter> = Vec::new();
    let mut i: usize = 0;
    proof {
        assert(a.deep_view().subrange(0, n as int) =~= a.deep_view());
        let r0 = spec_params_of(a.deep_view());
        match r0 {
            Ok(res) => {
                assert(ps.deep_view() + res =~= res);
            },
            Err(_) => {},
        }
    }
    while i < n
        invariant
            0 <= i <= n,
            n == a@.len(),
            a.deep_view().len() == n,
            ps.deep_view().len() == i,
            spec_params_of(a.deep_view()) == (match spec_params_of(
                a.deep_view().subrange(i as int, n as int),
            ) {
                Ok(res) => Ok::<Seq<SpecParameter>, ManifestError>(ps.deep_view() + res),
                Err(e) => Err::<Seq<SpecParameter>, ManifestError>(e),
            }),
        decreases n - i,
    {
        proof {
            let av = a.deep_view();
            assert(av.subrange(i as int, n as int)[0] == av[i as int]);
            assert(av.subrange(i as int, n as int).subrange(1, (n - i) as int) =~= av.subrange(
                i + 1,
                n as int,
            ));
        }
        match param_of(&a[i]) {
            Err(e) => {
                return Err(e);
            },
            Ok(p) => {
                let ghost old_ps = ps.deep_view();
                let ghost pv = p.deep_view();
                ps.push(p);
                proof {
                    assert(ps.deep_view() =~= old_ps.push(pv));
                    let r_rest = spec_params_of(a.deep_view().subrange(i + 1, n as int));
                    match r_rest {
                        Ok(res2) => {
                            assert(old_ps + (seq![pv] + res2) =~= ps.deep_view() + res2);
                        },
                        Err(_) => {},
                    }
                }
                i = i + 1;
            },
        }
    }
    proof {
        assert(a.deep_view().subrange(n as int, n as int) =~= Seq::<SpecValue>::empty());
        assert(ps.deep_view() + Seq::<SpecParameter>::empty() =~= ps.deep_view());
    }
    Ok(ps)
}

/// What the optional deprecation ordinal of a function mapping is: absent,
/// or an integer.
pub open spec fn spec_deprecated_of(es: Seq<(SpecValue, SpecValue)>) -> Result<
    Option<i64>,
    ManifestError,
> {
    match spec_dict_get(es, "deprecated_since"@) {
        Option::None => Ok(Option::None),
        Some(SpecValue::Integer(i)) => Ok(Some(i)),
        Some(_) => Err(ManifestError::Shape),
    }
}

/// What one function descriptor is: its method flag, name, parameter list,
/// return type-name token (which must parse), introduced-version ordinal,
/// and optional deprecated-version ordinal.
pub open spec fn spec_function_of(v: SpecValue) -> Result<SpecFunction, ManifestError> {
    match v {
        SpecValue::Dictionary(es) => {
            if spec_get_bool(es, "method"@) is Ok && spec_get_str(es, "name"@) is Ok
                && spec_get_array(es, "parameters"@) is Ok && spec_get_str(es, "return_type"@) is Ok
                && spec_get_i64(es, "since"@) is Ok && spec_deprecated_of(es) is Ok
                && spec_params_of(spec_get_array(es, "parameters"@)->Ok_0) is Ok
                && spec_parse_type_name(spec_get_str(es, "return_type"@)->Ok_0) is Ok {
                Ok(
                    SpecFunction {
                        method: spec_get_bool(es, "method"@)->Ok_0,
                        name: spec_get_str(es, "name"@)->Ok_0,
                        parameters: spec_params_of(spec_get_array(es, "parameters"@)->Ok_0)->Ok_0,
                        return_type: spec_parse_type_name(spec_get_str(es, "return_type"@)->Ok_0)->Ok_0,
                        since: spec_get_i64(es, "since"@)->Ok_0,
                        deprecated_since: spec_deprecated_of(es)->Ok_0,
                    },
                )
            } else {
                Err(ManifestError::Shape)
            }
        },
        _ => Err(ManifestError::Shape),
    }
}

/// What a function list is, elementwise.
pub open spec fn spec_functions_of(s: Seq<SpecValue>) -> Result<Seq<SpecFunction>, ManifestError>
    decreases s,
{
    if s.len() == 0 {
        Ok(Seq::empty())
    } else {
        match spec_function_of(s[0]) {
            Err(e) => Err(e),
            Ok(f) => match spec_functions_of(s.subrange(1, s.len() as int)) {
                Err(e) => Err(e),
                Ok(fs) => Ok(seq![f] + fs),
            },
        }
    }
}

/// Projects one function descriptor.
fn function_of(v: &BasicType) -> (r: Result<Function, ManifestError>)
    ensures
        match r {
            Ok(f) => spec_function_of(v.deep_view()) == Ok::<SpecFunction, ManifestError>(
                f.deep_view(),
            ),
            Err(e) => spec_function_of(v.deep_view()) == Err::<SpecFunction, ManifestError>(e),
        },
{
    let d = match v {
        BasicType::Dictionary(d) => d,
        _ => {
            return Err(ManifestError::Shape);
        },
    };
    proof {
        crate::value::lemma_spec_entries_of(d@);
        assert(d.deep_view() =~= crate::value::spec_entries_of(d@));
    }
    let method = match get_bool(d, "method") {
        Ok(x) => x,
        Err(e) => {
            return Err(e);
        },
    };
    let name = match get_str(d, "name") {
        Ok(x) => x.clone(),
        Err(e) => {
            return Err(e);
        },
    };
    let params_raw = match get_array(d, "parameters") {
        Ok(x) => x,
        Err(e) => {
            return Err(e);
        },
    };
    let return_tok = match get_str(d, "return_type") {
        Ok(x) => x,
        Err(e) => {
            return Err(e);
        },
    };
    let since = match get_i64(d, "since") {
        Ok(x) => x,
        Err(e) => {
            return Err(e);
        },
    };
    let deprecated_since = match dict_get(d, "deprecated_since") {
        Option::None => Option::None,
        Some(BasicType::Integer(i)) => Some(*i),
        Some(_) => {
            return Err(ManifestError::Shape);
        },
    };
    let parameters = match params_of(params_raw) {
        Ok(x) => x,
        Err(e) => {
            return Err(e);
        },
    };
    let return_type = match parse_type_name(return_tok.as_str()) {
        Ok(t) => t,
        Err(_) => {
            return Err(ManifestError::Shape);
        },
    };
    Ok(Function { method, name, parameters, return_type, since, deprecated_since })
}

/// Projects the ordered function list.
#[verifier::loop_isolation(false)]
pub fn functions_of(a: &Vec<BasicType>) -> (r: Result<Vec<Function>, ManifestError>)
    ensures
        match r {
            Ok(fs) => spec_functions_of(a.deep_view()) == Ok::<Seq<SpecFunction>, ManifestError>(
                fs.deep_view(),
            ),
            Err(e) => spec_functions_of(a.deep_view()) == Err::<Seq<SpecFunction>, ManifestError>(
                e,
            ),
        },
{
    let n = a.len();
    let mut fs: Vec<Function> = Vec::new();
    let mut i: usize = 0;
    proof {
        assert(a.deep_view().subrange(0, n as int) =~= a.deep_view());
        let r0 = spec_functions_of(a.deep_view());
        match r0 {
            Ok(res) => {
                assert(fs.deep_view() + res =~= res);
            },
            Err(_) => {},
        }
    }
    while i < n
        invariant
            0 <= i <= n,
            n == a@.len(),
            a.deep_view().len() == n,
            fs.deep_view().len() == i,
            spec_functions_of(a.deep_view()) == (match spec_functions_of(
                a.deep_view().subrange(i as int, n as int),
            ) {
                Ok(res) => Ok::<Seq<SpecFunction>, ManifestError>(fs.deep_view() + res),
                Err(e) => Err::<Seq<SpecFunction>, ManifestError>(e),
            }),
        decreases n - i,
    {
        proof {
            let av = a.deep_view();
            assert(av.subrange(i as int, n as int)[0] == av[i as int]);
            assert(av.subrange(i as int, n as int).subrange(1, (n - i) as int) =~= av.subrange(
                i + 1,
                n as int,
            ));
        }
        match function_of(&a[i]) {
            Err(e) => {
                return Err(e);
            },
            Ok(f) => {
                let ghost old_fs = fs.deep_view();
                let ghost fv = f.deep_view();
                fs.push(f);
                proof {
                    assert(fs.deep_view() =~= old_fs.push(fv));
                    let r_rest = spec_functions_of(a.deep_view().subrange(i + 1, n as int));
                    match r_rest {
                        Ok(res2) => {
                            assert(old_fs + (seq![fv] + res2) =~= fs.deep_view() + res2);
                        },
                        Err(_) => {},
                    }
                }
                i = i + 1;
            },
        }
    }
    proof {
        assert(a.deep_view().subrange(n as int, n as int) =~= Seq::<SpecValue>::empty());
        assert(fs.deep_view() + Seq::<SpecFunction>::empty() =~= fs.deep_view());
    }
    Ok(fs)
}

/// What one UI event descriptor is: name, parameter list, introduced-
/// version ordinal.
pub open spec fn spec_ui_event_of(v: SpecValue) -> Result<SpecUiEvent, ManifestError> {
    match v {
        SpecValue::Dictionary(es) => {
            if spec_get_str(es, "name"@) is Ok && spec_get_array(es, "parameters"@) is Ok
                && spec_get_i64(es, "since"@) is Ok && spec_params_of(
                spec_get_array(es, "parameters"@)->Ok_0,
            ) is Ok {
                Ok(
                    SpecUiEvent {
                        name: spec_get_str(es, "name"@)->Ok_0,
                        parameters: spec_params_of(spec_get_array(es, "parameters"@)->Ok_0)->Ok_0,
                        since: spec_get_i64(es, "since"@)->Ok_0,
                    },
                )
            } else {
                Err(ManifestError::Shape)
            }
        },
        _ => Err(ManifestError::Shape),
    }
}

/// What a UI event list is, elementwise.
pub open spec fn spec_ui_events_of(s: Seq<SpecValue>) -> Result<Seq<SpecUiEvent>, ManifestError>
    decreases s,
{
    if s.len() == 0 {
        Ok(Seq::empty())
    } else {
        match spec_ui_event_of(s[0]) {
            Err(e) => Err(e),
            Ok(ev) => match spec_ui_events_of(s.subrange(1, s.len() as int)) {
                Err(e) => Err(e),
                Ok(evs) => Ok(seq![ev] + evs),
            },
        }
    }
}

/// Projects one UI event descriptor.
fn ui_event_of(v: &BasicType) -> (r: Result<UiEvent, ManifestError>)
    ensures
        match r {
            Ok(ev) => spec_ui_event_of(v.deep_view()) == Ok::<SpecUiEvent, ManifestError>(
                ev.deep_view(),
            ),
            Err(e) => spec_ui_event_of(v.deep_view()) == Err::<SpecUiEvent, ManifestError>(e),
        },
{
    let d = match v {
        BasicType::Dictionary(d) => d,
        _ => {
            return Err(ManifestError::Shape);
        },
    };
    proof {
        crate::value::lemma_spec_entries_of(d@);
        assert(d.deep_view() =~= crate::value::spec_entries_of(d@));
    }
    let name = match get_str(d, "name") {
        Ok(x) => x.clone(),
        Err(e) => {
            return Err(e);
        },
    };
    let params_raw = match get_array(d, "parameters") {
        Ok(x) => x,
        Err(e) => {
            return Err(e);
        },
    };
    let since = match get_i64(d, "since") {
        Ok(x) => x,
        Err(e) => {
            return Err(e);
        },
    };
    let parameters = match params_of(params_raw) {
        Ok(x) => x,
        Err(e) => {
            return Err(e);
        },
    };
    Ok(UiEvent { name, parameters, since })
}

/// Projects the ordered UI event list.
#[verifier::loop_isolation(false)]
pub fn ui_events_of(a: &Vec<BasicType>) -> (r: Result<Vec<UiEvent>, ManifestError>)
    ensures
        match r {
            Ok(evs) => spec_ui_events_of(a.deep_view()) == Ok::<Seq<SpecUiEvent>, ManifestError>(
                evs.deep_view(),
            ),
            Err(e) => spec_ui_events_of(a.deep_view()) == Err::<Seq<SpecUiEvent>, ManifestError>(
                e,
            ),
        },
{
    let n = a.len();
    let mut evs: Vec<UiEvent> = Vec::new();
    let mut i: usize = 0;
    proof {
        assert(a.deep_view().subrange(0, n as int) =~= a.deep_view());
        let r0 = spec_ui_events_of(a.deep_view());
        match r0 {
            Ok(res) => {
                assert(evs.deep_view() + res =~= res);
            },
            Err(_) => {},
        }
    }
    while i < n
        invariant
            0 <= i <= n,
            n == a@.len(),
            a.deep_view().len() == n,
            evs.deep_view().len() == i,
            spec_ui_events_of(a.deep_view()) == (match spec_ui_events_of(
                a.deep_view().subrange(i as int, n as int),
            ) {
                Ok(res) => Ok::<Seq<SpecUiEvent>, ManifestError>(evs.deep_view() + res),
                Err(e) => Err::<Seq<SpecUiEvent>, ManifestError>(e),
            }),
        decreases n - i,
    {
        proof {
            let av = a.deep_view();
            assert(av.subrange(i as int, n as int)[0] == av[i as int]);
            assert(av.subrange(i as int, n as int).subrange(1, (n - i) as int) =~= av.subrange(
                i + 1,
                n as int,
            ));
        }
        match ui_event_of(&a[i]) {
            Err(e) => {
                return Err(e);
            },
            Ok(ev) => {
                let ghost old_evs = evs.deep_view();
                let ghost evv = ev.deep_view();
                evs.push(ev);
                proof {
                    assert(evs.deep_view() =~= old_evs.push(evv));
                    let r_rest = spec_ui_events_of(a.deep_view().subrange(i + 1, n as int));
                    match r_rest {
                        Ok(res2) => {
                            assert(old_evs + (seq![evv] + res2) =~= evs.deep_view() + res2);
                        },
                        Err(_) => {},
                    }
                }
                i = i + 1;
            },
        }
    }
    proof {
        assert(a.deep_view().subrange(n as int, n as int) =~= Seq::<SpecValue>::empty());
        assert(evs.deep_view() + Seq::<SpecUiEvent>::empty() =~= evs.deep_view());
    }
    Ok(evs)
}

/// What the UI option list is: a sequence of strings, kept in order.
pub open spec fn spec_ui_options_of(s: Seq<SpecValue>) -> Result<Seq<Seq<char>>, ManifestError>
    decreases s,
{
    if s.len() == 0 {
        Ok(Seq::empty())
    } else {
        match s[0] {
            SpecValue::String(o) => match spec_ui_options_of(s.subrange(1, s.len() as int)) {
                Err(e) => Err(e),
                Ok(os) => Ok(seq![o] + os),
            },
            _ => Err(ManifestError::Shape),
        }
    }
}

/// Projects the ordered UI option list.
#[verifier::loop_isolation(false)]
pub fn ui_options_of(a: &Vec<BasicType>) -> (r: Result<Vec<String>, ManifestError>)
    ensures
        match r {
            Ok(os) => spec_ui_options_of(a.deep_view()) == Ok::<Seq<Seq<char>>, ManifestError>(
                os.deep_view(),
            ),
            Err(e) => spec_ui_options_of(a.deep_view()) == Err::<Seq<Seq<char>>, ManifestError>(e),
        },
{
    let n = a.len();
    let mut os: Vec<String> = Vec::new();
    let mut i: usize = 0;
    proof {
        assert(a.deep_view().subrange(0, n as int) =~= a.deep_view());
        let r0 = spec_ui_options_of(a.deep_view());
        match r0 {
            Ok(res) => {
                assert(os.deep_view() + res =~= res);
            },
            Err(_) => {},
        }
    }
    while i < n
        invariant
            0 <= i <= n,
            n == a@.len(),
            a.deep_view().len() == n,
            os.deep_view().len() == i,
            spec_ui_options_of(a.deep_view()) == (match spec_ui_options_of(
                a.deep_view().subrange(i as int, n as int),
            ) {
                Ok(res) => Ok::<Seq<Seq<char>>, ManifestError>(os.deep_view() + res),
                Err(e) => Err::<Seq<Seq<char>>, ManifestError>(e),
            }),
        decreases n - i,
    {
        proof {
            let av = a.deep_view();
            assert(av.subrange(i as int, n as int)[0] == av[i as int]);
            assert(av.subrange(i as int, n as int).subrange(1, (n - i) as int) =~= av.subrange(
                i + 1,
                n as int,
            ));
        }
        match &a[i] {
            BasicType::String(s) => {
                let ghost old_os = os.deep_view();
                let ghost sv = s@;
                let owned = s.clone();
                os.push(owned);
                proof {
                    assert(os.deep_view() =~= old_os.push(sv));
                    let r_rest = spec_ui_options_of(a.deep_view().subrange(i + 1, n as int));
                    match r_rest {
                        Ok(res2) => {
                            assert(old_os + (seq![sv] + res2) =~= os.deep_view() + res2);
                        },
                        Err(_) => {},
                    }
                }
                i = i + 1;
            },
            _ => {
                return Err(ManifestError::Shape);
            },
        }
    }
    proof {
        assert(a.deep_view().subrange(n as int, n as int) =~= Seq::<SpecValue>::empty());
        assert(os.deep_view() + Seq::<Seq<char>>::empty() =~= os.deep_view());
    }
    Ok(os)
}

/// What the error-type table is: each pair maps a symbolic name to a
/// mapping holding its numeric id, in manifest order.
pub open spec fn spec_error_types_of(es: Seq<(SpecValue, SpecValue)>) -> Result<
    Seq<(Seq<char>, i64)>,
    ManifestError,
>
    decreases es,
{
    if es.len() == 0 {
        Ok(Seq::empty())
    } else {
        match (es[0].0, es[0].1) {
            (SpecValue::String(name), SpecValue::Dictionary(sub)) => {
                if spec_get_i64(sub, "id"@) is Ok {
                    match spec_error_types_of(es.subrange(1, es.len() as int)) {
                        Err(e) => Err(e),
                        Ok(rest) => Ok(seq![(name, spec_get_i64(sub, "id"@)->Ok_0)] + rest),
                    }
                } else {
                    Err(ManifestError::Shape)
                }
            },
            _ => Err(ManifestError::Shape),
        }
    }
}

/// Projects the error-type table, in manifest order.
#[verifier::loop_isolation(false)]
pub fn error_types_of(d: &Vec<(BasicType, BasicType)>) -> (r: Result<
    Vec<(String, i64)>,
    ManifestError,
>)
    ensures
        match r {
            Ok(ts) => spec_error_types_of(d.deep_view()) == Ok::<
                Seq<(Seq<char>, i64)>,
                ManifestError,
            >(ts.deep_view()),
            Err(e) => spec_error_types_of(d.deep_view()) == Err::<
                Seq<(Seq<char>, i64)>,
                ManifestError,
            >(e),
        },
{
    let n = d.len();
    let mut ts: Vec<(String, i64)> = Vec::new();
    let mut i: usize = 0;
    proof {
        assert(d.deep_view().subrange(0, n as int) =~= d.deep_view());
        let r0 = spec_error_types_of(d.deep_view());
        match r0 {
            Ok(res) => {
                assert(ts.deep_view() + res =~= res);
            },
            Err(_) => {},
        }
    }
    while i < n
        invariant
            0 <= i <= n,
            n == d@.len(),
            d.deep_view().len() == n,
            ts.deep_view().len() == i,
            spec_error_types_of(d.deep_view()) == (match spec_error_types_of(
                d.deep_view().subrange(i as int, n as int),
            ) {
                Ok(res) => Ok::<Seq<(Seq<char>, i64)>, ManifestError>(ts.deep_view() + res),
                Err(e) => Err::<Seq<(Seq<char>, i64)>, ManifestError>(e),
            }),
        decreases n - i,
    {
        proof {
            let dv = d.deep_view();
            assert(dv.subrange(i as int, n as int)[0] == dv[i as int]);
            assert(dv[i as int] == (d@[i as int].0.deep_view(), d@[i as int].1.deep_view()));
            assert(dv.subrange(i as int, n as int).subrange(1, (n - i) as int) =~= dv.subrange(
                i + 1,
                n as int,
            ));
        }
        let name = match &d[i].0 {
            BasicType::String(s) => s.clone(),
            _ => {
                return Err(ManifestError::Shape);
            },
        };
        let sub = match &d[i].1 {
            BasicType::Dictionary(sub) => sub,
            _ => {
                return Err(ManifestError::Shape);
            },
        };
        proof {
            crate::value::lemma_spec_entries_of(sub@);
            assert(sub.deep_view() =~= crate::value::spec_entries_of(sub@));
        }
        let id = match get_i64(sub, "id") {
            Ok(x) => x,
            Err(e) => {
                return Err(e);
            },
        };
        let ghost old_ts = ts.deep_view();
        let ghost nv = name@;
        ts.push((name, id));
        proof {
            assert(ts.deep_view() =~= old_ts.push((nv, id)));
            let r_rest = spec_error_types_of(d.deep_view().subrange(i + 1, n as int));
            match r_rest {
                Ok(res2) => {
                    assert(old_ts + (seq![(nv, id)] + res2) =~= ts.deep_view() + res2);
                },
                Err(_) => {},
            }
        }
        i = i + 1;
    }
    proof {
        assert(d.deep_view().subrange(n as int, n as int) =~= Seq::<
            (SpecValue, SpecValue),
        >::empty());
        assert(ts.deep_view() + Seq::<(Seq<char>, i64)>::empty() =~= ts.deep_view());
    }
    Ok(ts)
}

/// What the handle-kind table is: each pair maps a kind name to a mapping
/// holding its numeric id and textual wire prefix, in manifest order. It is
/// the authoritative source for the registry's tag assignment.
pub open spec fn spec_types_of(es: Seq<(SpecValue, SpecValue)>) -> Result<
    Seq<(Seq<char>, SpecTypeEntry)>,
    ManifestError,
>
    decreases es,
{
    if es.len() == 0 {
        Ok(Seq::empty())
    } else {
        match (es[0].0, es[0].1) {
            (SpecValue::String(name), SpecValue::Dictionary(sub)) => {
                if spec_get_i64(sub, "id"@) is Ok && spec_get_str(sub, "prefix"@) is Ok {
                    match spec_types_of(es.subrange(1, es.len() as int)) {
                        Err(e) => Err(e),
                        Ok(rest) => Ok(
                            seq![
                                (
                                    name,
                                    SpecTypeEntry {
                                        id: spec_get_i64(sub, "id"@)->Ok_0,
                                        prefix: spec_get_str(sub, "prefix"@)->Ok_0,
                                    },
                                ),
                            ] + rest,
                        ),
                    }
                } else {
                    Err(ManifestError::Shape)
                }
            },
            _ => Err(ManifestError::Shape),
        }
    }
}

/// Projects the handle-kind table, in manifest order.
#[verifier::loop_isolation(false)]
pub fn types_of(d: &Vec<(BasicType, BasicType)>) -> (r: Result<
    Vec<(String, TypeEntry)>,
    ManifestError,
>)
    ensures
        match r {
            Ok(ts) => spec_types_of(d.deep_view()) == Ok::<
                Seq<(Seq<char>, SpecTypeEntry)>,
                ManifestError,
            >(ts.deep_view()),
            Err(e) => spec_types_of(d.deep_view()) == Err::<
                Seq<(Seq<char>, SpecTypeEntry)>,
                ManifestError,
            >(e),
        },
{
    let n = d.len();
    let mut ts: Vec<(String, TypeEntry)> = Vec::new();
    let mut i: usize = 0;
    proof {
        assert(d.deep_view().subrange(0, n as int) =~= d.deep_view());
        let r0 = spec_types_of(d.deep_view());
        match r0 {
            Ok(res) => {
                assert(ts.deep_view() + res =~= res);
            },
            Err(_) => {},
        }
    }
    while i < n
        invariant
            0 <= i <= n,
            n == d@.len(),
            d.deep_view().len() == n,
            ts.deep_view().len() == i,
            spec_types_of(d.deep_view()) == (match spec_types_of(
                d.deep_view().subrange(i as int, n as int),
            ) {
                Ok(res) => Ok::<Seq<(Seq<char>, SpecTypeEntry)>, ManifestError>(
                    ts.deep_view() + res,
                ),
                Err(e) => Err::<Seq<(Seq<char>, SpecTypeEntry)>, ManifestError>(e),
            }),
        decreases n - i,
    {
        proof {
            let dv = d.deep_view();
            assert(dv.subrange(i as int, n as int)[0] == dv[i as int]);
            assert(dv[i as int] == (d@[i as int].0.deep_view(), d@[i as int].1.deep_view()));
            assert(dv.subrange(i as int, n as int).subrange(1, (n - i) as int) =~= dv.subrange(
                i + 1,
                n as int,
            ));
        }
        let name = match &d[i].0 {
            BasicType::String(s) => s.clone(),
            _ => {
                return Err(ManifestError::Shape);
            },
        };
        let sub = match &d[i].1 {
            BasicType::Dictionary(sub) => sub,
            _ => {
                return Err(ManifestError::Shape);
            },
        };
        proof {
            crate::value::lemma_spec_entries_of(sub@);
            assert(sub.deep_view() =~= crate::value::spec_entries_of(sub@));
        }
        let id = match get_i64(sub, "id") {
            Ok(x) => x,
            Err(e) => {
                return Err(e);
            },
        };
        let prefix = match get_str(sub, "prefix") {
            Ok(x) => x.clone(),
            Err(e) => {
                return Err(e);
            },
        };
        let ghost old_ts = ts.deep_view();
        let ghost nv = name@;
        let ghost ev = SpecTypeEntry { id, prefix: prefix@ };
        ts.push((name, TypeEntry { id, prefix }));
        proof {
            assert(ts.deep_view() =~= old_ts.push((nv, ev)));
            let r_rest = spec_types_of(d.deep_view().subrange(i + 1, n as int));
            match r_rest {
                Ok(res2) => {
                    assert(old_ts + (seq![(nv, ev)] + res2) =~= ts.deep_view() + res2);
                },
                Err(_) => {},
            }
        }
        i = i + 1;
    }
    proof {
        assert(d.deep_view().subrange(n as int, n as int) =~= Seq::<
            (SpecValue, SpecValue),
        >::empty());
        assert(ts.deep_view() + Seq::<(Seq<char>, SpecTypeEntry)>::empty() =~= ts.deep_view());
    }
    Ok(ts)
}

/// What the whole projected manifest is: the six top-level entries of the
/// manifest mapping, each of the shape expected of it.
pub open spec fn spec_root_of(v: SpecValue) -> Result<SpecRoot, ManifestError> {
    match v {
        SpecValue::Dictionary(es) => {
            if spec_dict_get(es, "version"@) is Some && spec_version_of(
                spec_dict_get(es, "version"@)->0,
            ) is Ok && spec_get_dict(es, "error_types"@) is Ok && spec_error_types_of(
                spec_get_dict(es, "error_types"@)->Ok_0,
            ) is Ok && spec_get_dict(es, "types"@) is Ok && spec_types_of(
                spec_get_dict(es, "types"@)->Ok_0,
            ) is Ok && spec_get_array(es, "functions"@) is Ok && spec_functions_of(
                spec_get_array(es, "functions"@)->Ok_0,
            ) is Ok && spec_get_array(es, "ui_options"@) is Ok && spec_ui_options_of(
                spec_get_array(es, "ui_options"@)->Ok_0,
            ) is Ok && spec_get_array(es, "ui_events"@) is Ok && spec_ui_events_of(
                spec_get_array(es, "ui_events"@)->Ok_0,
            ) is Ok {
                Ok(
                    SpecRoot {
                        version: spec_version_of(spec_dict_get(es, "version"@)->0)->Ok_0,
                        error_types: spec_error_types_of(
                            spec_get_dict(es, "error_types"@)->Ok_0,
                        )->Ok_0,
                        types: spec_types_of(spec_get_dict(es, "types"@)->Ok_0)->Ok_0,
                        functions: spec_functions_of(
                            spec_get_array(es, "functions"@)->Ok_0,
                        )->Ok_0,
                        ui_options: spec_ui_options_of(
                            spec_get_array(es, "ui_options"@)->Ok_0,
                        )->Ok_0,
                        ui_events: spec_ui_events_of(
                            spec_get_array(es, "ui_events"@)->Ok_0,
                        )->Ok_0,
                    },
                )
            } else {
                Err(ManifestError::Shape)
            }
        },
        _ => Err(ManifestError::Shape),
    }
}

/// Projects the whole manifest out of the decoded value tree.
pub fn root_of(v: &BasicType) -> (r: Result<Root, ManifestError>)
    ensures
        match r {
            Ok(root) => spec_root_of(v.deep_view()) == Ok::<SpecRoot, ManifestError>(
                root.deep_view(),
            ),
            Err(e) => spec_root_of(v.deep_view()) == Err::<SpecRoot, ManifestError>(e),
        },
{
    let d = match v {
        BasicType::Dictionary(d) => d,
        _ => {
            return Err(ManifestError::Shape);
        },
    };
    proof {
        crate::value::lemma_spec_entries_of(d@);
        assert(d.deep_view() =~= crate::value::spec_entries_of(d@));
    }
    let version_raw = match dict_get(d, "version") {
        Some(x) => x,
        Option::None => {
            return Err(ManifestError::Shape);
        },
    };
    let version = match version_of(version_raw) {
        Ok(x) => x,
        Err(e) => {
            return Err(e);
        },
    };
    let error_types_raw = match get_dict(d, "error_types") {
        Ok(x) => x,
        Err(e) => {
            return Err(e);
        },
    };
    let error_types = match error_types_of(error_types_raw) {
        Ok(x) => x,
        Err(e) => {
            return Err(e);
        },
    };
    let types_raw = match get_dict(d, "types") {
        Ok(x) => x,
        Err(e) => {
            return Err(e);
        },
    };
    let types = match types_of(types_raw) {
        Ok(x) => x,
        Err(e) => {
            return Err(e);
        },
    };
    let functions_raw = match get_array(d, "functions") {
        Ok(x) => x,
        Err(e) => {
            return Err(e);
        },
    };
    let functions = match functions_of(functions_raw) {
        Ok(x) => x,
        Err(e) => {
            return Err(e);
        },
    };
    let ui_options_raw = match get_array(d, "ui_options") {
        Ok(x) => x,
        Err(e) => {
            return Err(e);
        },
    };
    let ui_options = match ui_options_of(ui_options_raw) {
        Ok(x) => x,
        Err(e) => {
            return Err(e);
        },
    };
    let ui_events_raw = match get_array(d, "ui_events") {
        Ok(x) => x,
        Err(e) => {
            return Err(e);
        },
    };
    let ui_events = match ui_events_of(ui_events_raw) {
        Ok(x) => x,
        Err(e) => {
            return Err(e);
        },
    };
    Ok(Root { version, error_types, types, functions, ui_options, ui_events })
}

} // verus!
