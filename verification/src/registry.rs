//! The registry walker: consumes the structural events of a registry
//! document and builds the typed specification model.
//!
//! The walker is an explicit finite-state machine over the event
//! sequence ({before the root, inside the root, inside an enumerants
//! section, done}); unrecognized events are skipped. An entry-level
//! attribute defect (missing name, missing or unparsable value, an
//! out-of-range magnitude) aborts the whole build; this library adopts
//! that policy uniformly.

use vstd::prelude::*;
use crate::events::{Attribute, Event};
use crate::literal::{str_eq, trim_str, trim_spec, ParseError};
use crate::num_parse::{create_constant, spec_create_constant};
use crate::values;

verus! {

/// The target API family used to filter candidate entries.
#[derive(Debug, Clone, Copy)]
pub enum Api {
    OpenGL,
    OpenGLES,
    OpenGLSC,
}

/// The target version token. Recorded with the options; the extraction
/// logic does not consult it.
#[derive(Debug, Clone)]
pub struct ApiVersion(pub String);

/// The target profile. Recorded with the options; the extraction logic
/// does not consult it.
#[derive(Debug, Clone, Copy)]
pub enum ApiProfile {
    Core,
    Compatibility,
}

/// Immutable configuration supplied once at build start.
#[derive(Debug, Clone)]
pub struct SpecOptions {
    pub api: Api,
    pub version: ApiVersion,
    pub profile: ApiProfile,
}

/// A symbolic constant name, unique within a document, used as the key
/// for cross-referencing from groups.
#[derive(Debug)]
pub struct EnumerantId(pub String);

/// One named constant extracted from the registry. `alias`, when
/// present, records that this name is a synonym for another entry; the
/// relationship is recorded, never resolved.
#[derive(Debug)]
pub struct Enumerant {
    pub name: EnumerantId,
    pub value: values::Constant,
    pub alias: Option<String>,
}

/// A named, non-exclusive tag applied to zero or more enumerants.
#[derive(Debug)]
pub struct EnumerantGroup {
    pub name: Option<String>,
    pub enums: Vec<EnumerantId>,
}

/// The accumulated result of a build: the constants in document order,
/// and the groups in order of first appearance, each with its members in
/// insertion order.
#[derive(Debug)]
pub struct Spec {
    pub enum_groups: Vec<EnumerantGroup>,
    pub enums_list: Vec<Enumerant>,
}

/// Mathematical model of one enumerant.
pub ghost struct EnumerantModel {
    pub name: Seq<char>,
    pub value: u64,
    pub signed: bool,
    pub bitwidth: u32,
    pub alias: Option<Seq<char>>,
}

/// Mathematical model of one group.
pub ghost struct GroupModel {
    pub name: Option<Seq<char>>,
    pub members: Seq<Seq<char>>,
}

/// Mathematical model of a specification.
pub ghost struct SpecModel {
    pub groups: Seq<GroupModel>,
    pub enums: Seq<EnumerantModel>,
}

impl View for EnumerantId {
    type V = Seq<char>;

    open spec fn view(&self) -> Seq<char> {
        self.0@
    }
}

impl View for Enumerant {
    type V = EnumerantModel;

    open spec fn view(&self) -> EnumerantModel {
        EnumerantModel {
            name: self.name@,
            value: self.value.value,
            signed: self.value.ty.signed,
            bitwidth: self.value.ty.bitwidth,
            alias: match self.alias {
                Some(a) => Some(a@),
                None => None,
            },
        }
    }
}

impl View for EnumerantGroup {
    type V = GroupModel;

    open spec fn view(&self) -> GroupModel {
        GroupModel {
            name: match self.name {
                Some(n) => Some(n@),
                None => None,
            },
            members: self.enums@.map_values(|id: EnumerantId| id@),
        }
    }
}

impl View for Spec {
    type V = SpecModel;

    open spec fn view(&self) -> SpecModel {
        SpecModel {
            groups: self.enum_groups@.map_values(|g: EnumerantGroup| g@),
            enums: self.enums_list@.map_values(|e: Enumerant| e@),
        }
    }
}

impl Clone for EnumerantId {
    fn clone(&self) -> (r: Self)
        ensures
            r@ == self@,
    {
        EnumerantId(self.0.clone())
    }
}

impl Default for Spec {
    /// The empty specification.
    fn default() -> (s: Spec)
        ensures
            s@.groups.len() == 0,
            s@.enums.len() == 0,
    {
        Spec { enum_groups: Vec::new(), enums_list: Vec::new() }
    }
}

/// Why a build failed.
#[derive(Debug)]
pub enum BuildError {
    /// The event stream did not begin with a document start.
    MissingStartDocument,
    /// The document ended before a root container was seen.
    MissingRoot,
    /// An enumerants section was still open when the document ended.
    SectionNotClosed,
    /// The underlying reader failed: malformed markup.
    Malformed,
    /// An enumerant candidate carries no name attribute.
    MissingName,
    /// The named candidate carries no value attribute.
    MissingValue { name: String },
    /// The named candidate's value attribute was rejected.
    BadValue { name: String, value: String, cause: ParseError },
}

/// Mathematical model of a build failure.
pub ghost enum BuildErrorModel {
    MissingStartDocument,
    MissingRoot,
    SectionNotClosed,
    Malformed,
    MissingName,
    MissingValue { name: Seq<char> },
    BadValue { name: Seq<char>, value: Seq<char>, cause: ParseError },
}

impl View for BuildError {
    type V = BuildErrorModel;

    open spec fn view(&self) -> BuildErrorModel {
        match self {
            BuildError::MissingStartDocument => BuildErrorModel::MissingStartDocument,
            BuildError::MissingRoot => BuildErrorModel::MissingRoot,
            BuildError::SectionNotClosed => BuildErrorModel::SectionNotClosed,
            BuildError::Malformed => BuildErrorModel::Malformed,
            BuildError::MissingName => BuildErrorModel::MissingName,
            BuildError::MissingValue { name } => BuildErrorModel::MissingValue { name: name@ },
            BuildError::BadValue { name, value, cause } => BuildErrorModel::BadValue {
                name: name@,
                value: value@,
                cause: *cause,
            },
        }
    }
}

/// The first attribute with the given local name.
pub open spec fn spec_getattr(attrs: Seq<Attribute>, name: Seq<char>) -> Option<Attribute>
    decreases attrs.len(),
{
    if attrs.len() == 0 {
        None
    } else if attrs.first().name@ == name {
        Some(attrs.first())
    } else {
        spec_getattr(attrs.drop_first(), name)
    }
}

proof fn lemma_getattr_hit(attrs: Seq<Attribute>, name: Seq<char>, i: int)
    requires
        0 <= i < attrs.len(),
        forall|j: int| 0 <= j < i ==> attrs[j].name@ != name,
        attrs[i].name@ == name,
    ensures
        spec_getattr(attrs, name) == Some(attrs[i]),
    decreases i,
{
    if i > 0 {
        lemma_getattr_hit(attrs.drop_first(), name, i - 1);
    }
}

proof fn lemma_getattr_miss(attrs: Seq<Attribute>, name: Seq<char>)
    requires
        forall|j: int| 0 <= j < attrs.len() ==> attrs[j].name@ != name,
    ensures
        spec_getattr(attrs, name) is None,
    decreases attrs.len(),
{
    if attrs.len() > 0 {
        lemma_getattr_miss(attrs.drop_first(), name);
    }
}

/// Finds the first attribute with the given local name, if any.
pub fn getattr<'a>(attributes: &'a Vec<Attribute>, target: &str) -> (r: Option<&'a Attribute>)
    ensures
        match r {
            Some(a) => spec_getattr(attributes@, target@) == Some(*a),
            None => spec_getattr(attributes@, target@) is None,
        },
{
    let n = attributes.len();
    let mut i: usize = 0;
    while i < n
        invariant
            0 <= i <= n,
            n == attributes@.len(),
            forall|j: int| 0 <= j < i ==> attributes@[j].name@ != target@,
        decreases n - i,
    {
        if str_eq(attributes[i].name.as_str(), target) {
            proof {
                lemma_getattr_hit(attributes@, target@, i as int);
            }
            return Some(&attributes[i]);
        }
        i += 1;
    }
    proof {
        lemma_getattr_miss(attributes@, target@);
    }
    None
}

/// The fixed mapping from an `api` attribute token to a target family:
/// the empty token applies to every family; `gl` is desktop GL; `gles1`
/// and `gles2` are embedded GL; `glsc2` is safety-critical GL; any other
/// token matches no family.
pub open spec fn api_token_matches(token: Seq<char>, api: Api) -> bool {
    ||| token.len() == 0
    ||| (token == "gl"@ && api is OpenGL)
    ||| ((token == "gles1"@ || token == "gles2"@) && api is OpenGLES)
    ||| (token == "glsc2"@ && api is OpenGLSC)
}

/// The API-scoping predicate: a candidate is accepted when its `api`
/// attribute is absent (it applies universally) or maps to the
/// configured target family.
pub open spec fn api_accepts(attrs: Seq<Attribute>, api: Api) -> bool {
    match spec_getattr(attrs, "api"@) {
        None => true,
        Some(a) => api_token_matches(a.value@, api),
    }
}

/// Exec mirror of `api_accepts`.
pub fn api_check(attributes: &Vec<Attribute>, api: &Api) -> (r: bool)
    ensures
        r == api_accepts(attributes@, *api),
{
    match getattr(attributes, "api") {
        None => true,
        Some(a) => {
            let v = a.value.as_str();
            if v.is_empty() {
                true
            } else {
                match api {
                    Api::OpenGL => str_eq(v, "gl"),
                    Api::OpenGLES => str_eq(v, "gles1") || str_eq(v, "gles2"),
                    Api::OpenGLSC => str_eq(v, "glsc2"),
                }
            }
        },
    }
}

/// The value of a `group` attribute split on `,`, parts kept in order.
pub open spec fn split_commas(s: Seq<char>) -> Seq<Seq<char>>
    decreases s.len(),
{
    if s.len() == 0 {
        seq![Seq::<char>::empty()]
    } else {
        let r = split_commas(s.drop_last());
        if s.last() == ',' {
            r.push(Seq::<char>::empty())
        } else {
            r.update(r.len() - 1, r.last().push(s.last()))
        }
    }
}

/// Splitting yields at least one part.
proof fn lemma_split_commas_len(s: Seq<char>)
    ensures
        split_commas(s).len() >= 1,
    decreases s.len(),
{
    if s.len() > 0 {
        lemma_split_commas_len(s.drop_last());
    }
}

/// The group names named by a `group` attribute: the value split on
/// `,`, each part trimmed of whitespace.
pub open spec fn group_names(s: Seq<char>) -> Seq<Seq<char>> {
    split_commas(s).map_values(|p: Seq<char>| trim_spec(p))
}

/// Splits a `group` attribute value on `,` and trims each part.
pub fn split_group_names(s: &str) -> (names: Vec<String>)
    ensures
        names@.map_values(|p: String| p@) == group_names(s@),
{
    let n = s.unicode_len();
    let mut names: Vec<String> = Vec::new();
    let mut start: usize = 0;
    let mut i: usize = 0;
    while i < n
        invariant
            0 <= start <= i <= n,
            n == s@.len(),
            split_commas(s@.subrange(0, i as int)).len() == names@.len() + 1,
            forall|k: int|
                0 <= k < names@.len() ==> names@[k]@ == trim_spec(
                    #[trigger] split_commas(s@.subrange(0, i as int))[k],
                ),
            split_commas(s@.subrange(0, i as int)).last() == s@.subrange(
                start as int,
                i as int,
            ),
        decreases n - i,
    {
        proof {
            lemma_split_commas_len(s@.subrange(0, i + 1));
            assert(s@.subrange(0, i + 1).drop_last() =~= s@.subrange(0, i as int));
            assert(s@.subrange(0, i + 1).last() == s@[i as int]);
        }
        let ghost prev = split_commas(s@.subrange(0, i as int));
        let c = s.get_char(i);
        if c == ',' {
            let part = s.substring_char(start, i);
            let t = trim_str(part);
            let ghost tv = t@;
            let ghost names0 = names@;
            names.push(t);
            start = i + 1;
            proof {
                let cur = split_commas(s@.subrange(0, i + 1));
                assert(cur == prev.push(Seq::<char>::empty()));
                assert(tv == trim_spec(prev.last()));
                assert forall|k: int| 0 <= k < names@.len() implies names@[k]@ == trim_spec(
                    #[trigger] cur[k],
                ) by {
                    if k < names0.len() {
                        assert(names@[k] == names0[k]);
                        assert(cur[k] == prev[k]);
                    } else {
                        assert(names@[k]@ == tv);
                        assert(cur[k] == prev.last());
                    }
                }
                assert(s@.subrange(start as int, (i + 1) as int) =~= Seq::<char>::empty());
            }
        } else {
            proof {
                let cur = split_commas(s@.subrange(0, i + 1));
                let upd = prev.update(prev.len() - 1, prev.last().push(s@[i as int]));
                assert(cur == upd);
                assert forall|k: int| 0 <= k < names@.len() implies names@[k]@ == trim_spec(
                    #[trigger] cur[k],
                ) by {
                    assert(cur[k] == prev[k]);
                }
                assert(cur.last() == prev.last().push(s@[i as int]));
                assert(s@.subrange(start as int, i as int).push(s@[i as int]) =~= s@.subrange(
                    start as int,
                    (i + 1) as int,
                ));
            }
        }
        i += 1;
    }
    proof {
        assert(s@.subrange(0, n as int) =~= s@);
    }
    let last_part = s.substring_char(start, n);
    let t = trim_str(last_part);
    let ghost tv = t@;
    let ghost names0 = names@;
    names.push(t);
    proof {
        let parts = split_commas(s@);
        assert(tv == trim_spec(parts.last()));
        assert forall|k: int|
            0 <= k < names@.len() implies names@[k]@ == trim_spec(#[trigger] parts[k]) by {
            if k < names0.len() {
                assert(names@[k] == names0[k]);
            } else {
                assert(names@[k]@ == tv);
                assert(parts[k] == parts.last());
            }
        }
        assert(names@.map_values(|p: String| p@) =~= group_names(s@));
    }
    names
}

/// Model view of a group list.
pub open spec fn groups_model(gs: Seq<EnumerantGroup>) -> Seq<GroupModel> {
    gs.map_values(|g: EnumerantGroup| g@)
}

/// The index of the first group with the given name, if any.
pub open spec fn spec_find_group(groups: Seq<GroupModel>, name: Seq<char>) -> Option<int>
    decreases groups.len(),
{
    if groups.len() == 0 {
        None
    } else if groups.first().name == Some(name) {
        Some(0)
    } else {
        match spec_find_group(groups.drop_first(), name) {
            Some(i) => Some(i + 1),
            None => None,
        }
    }
}

proof fn lemma_find_group_hit(groups: Seq<GroupModel>, name: Seq<char>, i: int)
    requires
        0 <= i < groups.len(),
        forall|j: int| 0 <= j < i ==> groups[j].name != Some(name),
        groups[i].name == Some(name),
    ensures
        spec_find_group(groups, name) == Some(i),
    decreases i,
{
    if i > 0 {
        lemma_find_group_hit(groups.drop_first(), name, i - 1);
    }
}

proof fn lemma_find_group_miss(groups: Seq<GroupModel>, name: Seq<char>)
    requires
        forall|j: int| 0 <= j < groups.len() ==> groups[j].name != Some(name),
    ensures
        spec_find_group(groups, name) is None,
    decreases groups.len(),
{
    if groups.len() > 0 {
        lemma_find_group_miss(groups.drop_first(), name);
    }
}

/// A found index is in range and names the group searched for.
proof fn lemma_find_group_some(groups: Seq<GroupModel>, name: Seq<char>)
    ensures
        match spec_find_group(groups, name) {
            Some(i) => 0 <= i < groups.len() && groups[i].name == Some(name),
            None => true,
        },
    decreases groups.len(),
{
    if groups.len() > 0 {
        lemma_find_group_some(groups.drop_first(), name);
    }
}

/// The group list after appending `id` under one name: the first group
/// with that name gets the id appended to its members; when none exists
/// a new group is created at the end of the list.
pub open spec fn spec_add_one_group(
    groups: Seq<GroupModel>,
    name: Seq<char>,
    id: Seq<char>,
) -> Seq<GroupModel> {
    match spec_find_group(groups, name) {
        Some(i) => groups.update(
            i,
            GroupModel { name: groups[i].name, members: groups[i].members.push(id) },
        ),
        None => groups.push(GroupModel { name: Some(name), members: seq![id] }),
    }
}

/// The group list after appending `id` under each name in order.
pub open spec fn spec_add_to_groups(
    groups: Seq<GroupModel>,
    names: Seq<Seq<char>>,
    id: Seq<char>,
) -> Seq<GroupModel>
    decreases names.len(),
{
    if names.len() == 0 {
        groups
    } else {
        spec_add_to_groups(spec_add_one_group(groups, names.first(), id), names.drop_first(), id)
    }
}

/// Folding one more name is appending it after the fold of the rest.
proof fn lemma_add_to_groups_snoc(
    groups: Seq<GroupModel>,
    names: Seq<Seq<char>>,
    x: Seq<char>,
    id: Seq<char>,
)
    ensures
        spec_add_to_groups(groups, names.push(x), id) == spec_add_one_group(
            spec_add_to_groups(groups, names, id),
            x,
            id,
        ),
    decreases names.len(),
{
    if names.len() == 0 {
        assert(names.push(x).drop_first() =~= Seq::<Seq<char>>::empty());
        assert(names.push(x).first() == x);
        let g1 = spec_add_one_group(groups, x, id);
        assert(spec_add_to_groups(groups, names.push(x), id) == spec_add_to_groups(
            g1,
            Seq::<Seq<char>>::empty(),
            id,
        ));
        assert(spec_add_to_groups(g1, Seq::<Seq<char>>::empty(), id) == g1);
        assert(spec_add_to_groups(groups, names, id) == groups);
    } else {
        assert(names.push(x).drop_first() =~= names.drop_first().push(x));
        assert(names.push(x).first() == names.first());
        let g1 = spec_add_one_group(groups, names.first(), id);
        assert(spec_add_to_groups(groups, names.push(x), id) == spec_add_to_groups(
            g1,
            names.drop_first().push(x),
            id,
        ));
        lemma_add_to_groups_snoc(g1, names.drop_first(), x, id);
        assert(spec_add_to_groups(groups, names, id) == spec_add_to_groups(
            g1,
            names.drop_first(),
            id,
        ));
    }
}

/// Appends `id` to the group of the given name, creating the group at
/// the end of the list when it is new.
fn add_to_one_group(groups: &mut Vec<EnumerantGroup>, name: &str, id: &EnumerantId)
    ensures
        groups_model(final(groups)@) == spec_add_one_group(groups_model(old(groups)@), name@, id@),
{
    let n = groups.len();
    let mut i: usize = 0;
    while i < n
        invariant
            0 <= i <= n,
            n == groups@.len(),
            groups@ == old(groups)@,
            forall|j: int| 0 <= j < i ==> groups_model(groups@)[j].name != Some(name@),
        decreases n - i,
    {
        let found = match &groups[i].name {
            Some(g) => str_eq(g.as_str(), name),
            None => false,
        };
        if found {
            proof {
                lemma_find_group_hit(groups_model(groups@), name@, i as int);
            }
            let ghost m0 = groups_model(groups@);
            let idc = id.clone();
            let ghost idv = idc@;
            let g = &mut groups[i];
            g.enums.push(idc);
            proof {
                let m1 = groups_model(groups@);
                let target = spec_add_one_group(m0, name@, id@);
                assert(m1.len() == target.len());
                assert forall|k: int| 0 <= k < m1.len() implies m1[k] == target[k] by {
                    if k == i as int {
                        assert(m1[k].members =~= m0[k].members.push(idv));
                        assert(m1[k].name == m0[k].name);
                    } else {
                        assert(groups@[k] == old(groups)@[k]);
                    }
                }
                assert(m1 =~= target);
            }
            return ;
        }
        i += 1;
    }
    proof {
        lemma_find_group_miss(groups_model(groups@), name@);
    }
    let ghost m0 = groups_model(groups@);
    let mut members: Vec<EnumerantId> = Vec::new();
    members.push(id.clone());
    let ghost mv = members@.map_values(|x: EnumerantId| x@);
    groups.push(EnumerantGroup { name: Some(name.to_owned()), enums: members });
    proof {
        let m1 = groups_model(groups@);
        let target = spec_add_one_group(m0, name@, id@);
        assert(mv =~= seq![id@]);
        assert(m1.len() == target.len());
        assert forall|k: int| 0 <= k < m1.len() implies m1[k] == target[k] by {
            if k < m0.len() {
                assert(groups@[k] == old(groups)@[k]);
            } else {
                assert(m1[k].members == mv);
            }
        }
        assert(m1 =~= target);
    }
}

/// What one accepted or rejected `enum` candidate does to the model:
/// a candidate of a foreign API family is skipped whole; a missing name
/// or value, an unparsable value and an out-of-range magnitude abort the
/// build; otherwise one enumerant is appended in document order and its
/// id is appended under each of its (comma-split, trimmed) group names.
pub open spec fn spec_process_candidate(
    attrs: Seq<Attribute>,
    api: Api,
    acc: SpecModel,
) -> Result<SpecModel, BuildErrorModel> {
    if !api_accepts(attrs, api) {
        Ok(acc)
    } else {
        match spec_getattr(attrs, "name"@) {
            None => Err(BuildErrorModel::MissingName),
            Some(na) => {
                let name = na.value@;
                match spec_getattr(attrs, "value"@) {
                    None => Err(BuildErrorModel::MissingValue { name }),
                    Some(va) => match spec_create_constant(va.value@) {
                        Err(e) => Err(
                            BuildErrorModel::BadValue { name, value: va.value@, cause: e },
                        ),
                        Ok(c) => {
                            let alias = match spec_getattr(attrs, "alias"@) {
                                None => None,
                                Some(aa) => Some(aa.value@),
                            };
                            let en = EnumerantModel {
                                name,
                                value: c.value,
                                signed: c.signed,
                                bitwidth: c.bitwidth,
                                alias,
                            };
                            let groups = match spec_getattr(attrs, "group"@) {
                                None => acc.groups,
                                Some(ga) => spec_add_to_groups(
                                    acc.groups,
                                    group_names(ga.value@),
                                    name,
                                ),
                            };
                            Ok(SpecModel { groups, enums: acc.enums.push(en) })
                        },
                    },
                }
            },
        }
    }
}

/// Processes one `enum` candidate element against the accumulated
/// specification, exactly as `spec_process_candidate` states.
fn process_enum_element(attributes: &Vec<Attribute>, api: &Api, sp: &mut Spec) -> (r: Result<
    (),
    BuildError,
>)
    ensures
        match r {
            Ok(_) => spec_process_candidate(attributes@, *api, old(sp)@) == Ok::<
                SpecModel,
                BuildErrorModel,
            >(final(sp)@),
            Err(e) => spec_process_candidate(attributes@, *api, old(sp)@) == Err::<
                SpecModel,
                BuildErrorModel,
            >(e@) && final(sp)@ == old(sp)@,
        },
{
    if !api_check(attributes, api) {
        return Ok(());
    }
    let name_attr = match getattr(attributes, "name") {
        Some(a) => a,
        None => {
            return Err(BuildError::MissingName);
        },
    };
    let name = name_attr.value.clone();
    let value_attr = match getattr(attributes, "value") {
        Some(a) => a,
        None => {
            return Err(BuildError::MissingValue { name });
        },
    };
    let constant = match create_constant(value_attr.value.as_str()) {
        Ok(c) => c,
        Err(e) => {
            return Err(BuildError::BadValue { name, value: value_attr.value.clone(), cause: e });
        },
    };
    let alias: Option<String> = match getattr(attributes, "alias") {
        Some(a) => Some(a.value.clone()),
        None => None,
    };
    let group_val: Option<String> = match getattr(attributes, "group") {
        Some(a) => Some(a.value.clone()),
        None => None,
    };
    let id = EnumerantId(name);
    let id_for_groups = id.clone();
    let ghost idv = id@;
    let ghost enums0 = sp@.enums;
    let ghost groups0 = sp@.groups;
    sp.enums_list.push(
        Enumerant {
            name: id,
            value: values::Constant {
                value: constant.value,
                ty: values::IntegralType { bitwidth: constant.bitwidth, signed: constant.signed },
            },
            alias,
        },
    );
    proof {
        assert(sp@.enums =~= enums0.push(sp@.enums.last()));
        assert(sp@.groups =~= groups0);
    }
    let ghost enums1 = sp@.enums;
    if let Some(gv) = group_val {
        let names = split_group_names(gv.as_str());
        let ghost gnames = group_names(gv@);
        let nn = names.len();
        let mut k: usize = 0;
        while k < nn
            invariant
                0 <= k <= nn,
                nn == names@.len(),
                names@.map_values(|p: String| p@) == gnames,
                id_for_groups@ == idv,
                sp@.enums == enums1,
                groups_model(sp.enum_groups@) == spec_add_to_groups(
                    groups0,
                    gnames.subrange(0, k as int),
                    idv,
                ),
            decreases nn - k,
        {
            proof {
                assert(gnames.subrange(0, k as int) =~= gnames.subrange(0, k + 1).drop_last());
                assert(gnames.subrange(0, k + 1) =~= gnames.subrange(0, k as int).push(
                    gnames[k as int],
                ));
                assert(names@[k as int]@ == gnames[k as int]);
                lemma_add_to_groups_snoc(groups0, gnames.subrange(0, k as int), gnames[k as int], idv);
            }
            add_to_one_group(&mut sp.enum_groups, names[k].as_str(), &id_for_groups);
            k += 1;
        }
        proof {
            assert(gnames.subrange(0, nn as int) =~= gnames);
        }
    }
    Ok(())
}

/// The walker's states: before the root container, inside it, inside an
/// enumerants section, and finished.
#[derive(Debug, Clone, Copy, PartialEq, Eq, Structural)]
pub enum WalkState {
    BeforeRoot,
    InRoot,
    InEnumsSection,
    Done,
}

/// The empty specification model.
pub open spec fn empty_model() -> SpecModel {
    SpecModel { groups: Seq::empty(), enums: Seq::empty() }
}

/// The walk from event `i` in the given state, with the model
/// accumulated so far. Before the root, everything but a document end is
/// skipped until a `registry` element starts. Inside the root, only
/// `enums` sections are entered. Inside a section, `enum` candidates are
/// processed and the section's own end returns to the root; a document
/// that ends (or a stream that fails) while a section is open is
/// malformed. All other events are skipped.
pub open spec fn spec_walk_from(
    events: Seq<Event>,
    i: int,
    state: WalkState,
    acc: SpecModel,
    api: Api,
) -> Result<SpecModel, BuildErrorModel>
    decreases events.len() - i,
{
    if i < 0 || i >= events.len() {
        match state {
            WalkState::BeforeRoot => Err(BuildErrorModel::MissingRoot),
            WalkState::InEnumsSection => Err(BuildErrorModel::SectionNotClosed),
            _ => Ok(acc),
        }
    } else {
        match events[i] {
            Event::ReadError => Err(BuildErrorModel::Malformed),
            Event::EndDocument => match state {
                WalkState::BeforeRoot => Err(BuildErrorModel::MissingRoot),
                WalkState::InEnumsSection => Err(BuildErrorModel::SectionNotClosed),
                _ => Ok(acc),
            },
            Event::StartElement { name, attributes } => match state {
                WalkState::BeforeRoot => if name@ == "registry"@ {
                    spec_walk_from(events, i + 1, WalkState::InRoot, acc, api)
                } else {
                    spec_walk_from(events, i + 1, WalkState::BeforeRoot, acc, api)
                },
                WalkState::InRoot => if name@ == "enums"@ {
                    spec_walk_from(events, i + 1, WalkState::InEnumsSection, acc, api)
                } else {
                    spec_walk_from(events, i + 1, WalkState::InRoot, acc, api)
                },
                WalkState::InEnumsSection => if name@ == "enum"@ {
                    match spec_process_candidate(attributes@, api, acc) {
                        Ok(acc2) => spec_walk_from(
                            events,
                            i + 1,
                            WalkState::InEnumsSection,
                            acc2,
                            api,
                        ),
                        Err(e) => Err(e),
                    }
                } else {
                    spec_walk_from(events, i + 1, WalkState::InEnumsSection, acc, api)
                },
                WalkState::Done => Ok(acc),
            },
            Event::EndElement { name } => if state is InEnumsSection && name@ == "enums"@ {
                spec_walk_from(events, i + 1, WalkState::InRoot, acc, api)
            } else {
                spec_walk_from(events, i + 1, state, acc, api)
            },
            _ => spec_walk_from(events, i + 1, state, acc, api),
        }
    }
}

/// The whole walk: the stream must open with a document start; the
/// machine then runs from the first following event.
pub open spec fn spec_walk(events: Seq<Event>, api: Api) -> Result<SpecModel, BuildErrorModel> {
    if events.len() == 0 || !(events[0] is StartDocument) {
        Err(BuildErrorModel::MissingStartDocument)
    } else {
        spec_walk_from(events, 1, WalkState::BeforeRoot, empty_model(), api)
    }
}

/// Builds the specification from a sequence of structural events,
/// exactly as `spec_walk` states: the enumerant list holds the accepted
/// candidates in document order, and the group map is keyed by the
/// split, trimmed group names in order of first appearance.
pub fn build_spec_from_events(events: &Vec<Event>, opts: &SpecOptions) -> (r: Result<
    Spec,
    BuildError,
>)
    ensures
        match r {
            Ok(s) => spec_walk(events@, opts.api) == Ok::<SpecModel, BuildErrorModel>(s@)
                && model_wf(s@),
            Err(e) => spec_walk(events@, opts.api) == Err::<SpecModel, BuildErrorModel>(e@),
        },
{
    proof {
        lemma_walk_wf(events@, opts.api);
    }
    let ghost target = spec_walk(events@, opts.api);
    let n = events.len();
    if n == 0 {
        return Err(BuildError::MissingStartDocument);
    }
    let starts_ok = matches!(&events[0], Event::StartDocument);
    if !starts_ok {
        return Err(BuildError::MissingStartDocument);
    }
    let mut sp = Spec::default();
    let mut state = WalkState::BeforeRoot;
    let mut i: usize = 1;
    proof {
        assert(sp@ =~= empty_model()) by {
            assert(sp@.groups =~= empty_model().groups);
            assert(sp@.enums =~= empty_model().enums);
        }
    }
    while i < n && state != WalkState::Done
        invariant
            1 <= i <= n,
            n == events@.len(),
            target == spec_walk(events@, opts.api),
            state != WalkState::Done ==> target == spec_walk_from(
                events@,
                i as int,
                state,
                sp@,
                opts.api,
            ),
            state == WalkState::Done ==> target == Ok::<SpecModel, BuildErrorModel>(sp@),
        decreases n - i,
    {
        match &events[i] {
            Event::ReadError => {
                return Err(BuildError::Malformed);
            },
            Event::EndDocument => match state {
                WalkState::BeforeRoot => {
                    return Err(BuildError::MissingRoot);
                },
                WalkState::InEnumsSection => {
                    return Err(BuildError::SectionNotClosed);
                },
                _ => {
                    state = WalkState::Done;
                },
            },
            Event::StartElement { name, attributes } => match state {
                WalkState::BeforeRoot => {
                    if str_eq(name.as_str(), "registry") {
                        state = WalkState::InRoot;
                    }
                },
                WalkState::InRoot => {
                    if str_eq(name.as_str(), "enums") {
                        state = WalkState::InEnumsSection;
                    }
                },
                WalkState::InEnumsSection => {
                    if str_eq(name.as_str(), "enum") {
                        match process_enum_element(attributes, &opts.api, &mut sp) {
                            Ok(_) => {},
                            Err(e) => {
                                return Err(e);
                            },
                        }
                    }
                },
                WalkState::Done => {},
            },
            Event::EndElement { name } => {
                if state == WalkState::InEnumsSection && str_eq(name.as_str(), "enums") {
                    state = WalkState::InRoot;
                }
            },
            _ => {},
        }
        i += 1;
    }
    match state {
        WalkState::BeforeRoot => Err(BuildError::MissingRoot),
        WalkState::InEnumsSection => Err(BuildError::SectionNotClosed),
        _ => Ok(sp),
    }
}

/// Reads a registry document and builds its specification: the XML
/// crate decodes the bytes into the structural events `events_of` the
/// document, and the verified walker folds exactly that sequence. The
/// result is a function of the document and the options alone.
pub fn build_spec(document: &Vec<u8>, opts: SpecOptions) -> (r: Result<Spec, BuildError>)
    ensures
        match r {
            Ok(s) => spec_walk(crate::events::events_of(document@), opts.api) == Ok::<
                SpecModel,
                BuildErrorModel,
            >(s@) && model_wf(s@),
            Err(e) => spec_walk(crate::events::events_of(document@), opts.api) == Err::<
                SpecModel,
                BuildErrorModel,
            >(e@),
        },
{
    let events = crate::events::read_events(document);
    build_spec_from_events(&events, &opts)
}

/// The specification invariant: every id standing in a group also
/// stands, as a name, in the enumerant list; every group is named; and
/// no two groups share a name, so the group list reads as a mapping.
pub open spec fn model_wf(m: SpecModel) -> bool {
    &&& members_covered(m.groups, m.enums)
    &&& groups_wf(m.groups)
}

/// Every group is named, and no two groups share a name.
pub open spec fn groups_wf(groups: Seq<GroupModel>) -> bool {
    &&& forall|gi: int| 0 <= gi < groups.len() ==> (#[trigger] groups[gi].name) is Some
    &&& forall|gi: int, gj: int|
        #![trigger groups[gi].name, groups[gj].name]
        0 <= gi < gj < groups.len() ==> groups[gi].name != groups[gj].name
}

/// When no group carries the name, none of them does.
proof fn lemma_find_group_none(groups: Seq<GroupModel>, name: Seq<char>)
    requires
        spec_find_group(groups, name) is None,
    ensures
        forall|j: int| 0 <= j < groups.len() ==> (#[trigger] groups[j].name) != Some(name),
    decreases groups.len(),
{
    if groups.len() > 0 {
        lemma_find_group_none(groups.drop_first(), name);
        assert forall|j: int|
            0 <= j < groups.len() implies (#[trigger] groups[j].name) != Some(name) by {
            if j > 0 {
                assert(groups.drop_first()[j - 1] == groups[j]);
            }
        }
    }
}

/// Appending an id under one name keeps the groups named and distinct.
proof fn lemma_add_one_group_wf(groups: Seq<GroupModel>, name: Seq<char>, id: Seq<char>)
    requires
        groups_wf(groups),
    ensures
        groups_wf(spec_add_one_group(groups, name, id)),
{
    lemma_find_group_some(groups, name);
    let gs2 = spec_add_one_group(groups, name, id);
    match spec_find_group(groups, name) {
        Some(i) => {
            assert forall|gi: int| 0 <= gi < gs2.len() implies (#[trigger] gs2[gi].name) is Some by {
                assert(gs2[gi].name == groups[gi].name);
            }
            assert forall|gi: int, gj: int|
                #![trigger gs2[gi].name, gs2[gj].name]
                0 <= gi < gj < gs2.len() implies gs2[gi].name != gs2[gj].name by {
                assert(gs2[gi].name == groups[gi].name);
                assert(gs2[gj].name == groups[gj].name);
            }
        },
        None => {
            lemma_find_group_none(groups, name);
            assert forall|gi: int| 0 <= gi < gs2.len() implies (#[trigger] gs2[gi].name) is Some by {
                if gi < groups.len() {
                    assert(gs2[gi] == groups[gi]);
                } else {
                    assert(gs2[gi].name == Some(name));
                }
            }
            assert forall|gi: int, gj: int|
                #![trigger gs2[gi].name, gs2[gj].name]
                0 <= gi < gj < gs2.len() implies gs2[gi].name != gs2[gj].name by {
                if gj < groups.len() {
                    assert(gs2[gi] == groups[gi]);
                    assert(gs2[gj] == groups[gj]);
                } else {
                    assert(gs2[gi] == groups[gi]);
                    assert(gs2[gj].name == Some(name));
                }
            }
        },
    }
}

/// Appending an id under a list of names keeps the groups named and
/// distinct.
proof fn lemma_add_to_groups_wf(groups: Seq<GroupModel>, names: Seq<Seq<char>>, id: Seq<char>)
    requires
        groups_wf(groups),
    ensures
        groups_wf(spec_add_to_groups(groups, names, id)),
    decreases names.len(),
{
    if names.len() > 0 {
        lemma_add_one_group_wf(groups, names.first(), id);
        lemma_add_to_groups_wf(spec_add_one_group(groups, names.first(), id), names.drop_first(), id);
    }
}

/// Some enumerant of the list carries this name.
pub open spec fn name_in(enums: Seq<EnumerantModel>, id: Seq<char>) -> bool {
    exists|ei: int| #![trigger enums[ei]] 0 <= ei < enums.len() && enums[ei].name == id
}

/// Every member of a group names an enumerant of the list.
pub open spec fn members_covered(groups: Seq<GroupModel>, enums: Seq<EnumerantModel>) -> bool {
    forall|gi: int, mi: int|
        #![trigger groups[gi].members[mi]]
        0 <= gi < groups.len() && 0 <= mi < groups[gi].members.len() ==> name_in(
            enums,
            groups[gi].members[mi],
        )
}

proof fn lemma_name_in_push(enums: Seq<EnumerantModel>, e: EnumerantModel, id: Seq<char>)
    requires
        name_in(enums, id),
    ensures
        name_in(enums.push(e), id),
{
    let ei0 = choose|ei: int| #![trigger enums[ei]] 0 <= ei < enums.len() && enums[ei].name == id;
    assert(enums.push(e)[ei0] == enums[ei0]);
}

proof fn lemma_add_one_group_covered(
    groups: Seq<GroupModel>,
    name: Seq<char>,
    id: Seq<char>,
    enums: Seq<EnumerantModel>,
)
    requires
        members_covered(groups, enums),
        name_in(enums, id),
    ensures
        members_covered(spec_add_one_group(groups, name, id), enums),
{
    lemma_find_group_some(groups, name);
    let gs2 = spec_add_one_group(groups, name, id);
    assert forall|gi: int, mi: int|
        #![trigger gs2[gi].members[mi]]
        0 <= gi < gs2.len() && 0 <= mi < gs2[gi].members.len() implies name_in(
        enums,
        gs2[gi].members[mi],
    ) by {
        match spec_find_group(groups, name) {
            Some(i) => {
                if gi == i {
                    if mi < groups[i].members.len() {
                        assert(gs2[gi].members[mi] == groups[gi].members[mi]);
                    } else {
                        assert(gs2[gi].members[mi] == id);
                    }
                } else {
                    assert(gs2[gi] == groups[gi]);
                }
            },
            None => {
                if gi < groups.len() {
                    assert(gs2[gi] == groups[gi]);
                } else {
                    assert(gs2[gi].members =~= seq![id]);
                    assert(gs2[gi].members[mi] == id);
                }
            },
        }
    }
}

proof fn lemma_add_to_groups_covered(
    groups: Seq<GroupModel>,
    names: Seq<Seq<char>>,
    id: Seq<char>,
    enums: Seq<EnumerantModel>,
)
    requires
        members_covered(groups, enums),
        name_in(enums, id),
    ensures
        members_covered(spec_add_to_groups(groups, names, id), enums),
    decreases names.len(),
{
    if names.len() > 0 {
        lemma_add_one_group_covered(groups, names.first(), id, enums);
        lemma_add_to_groups_covered(
            spec_add_one_group(groups, names.first(), id),
            names.drop_first(),
            id,
            enums,
        );
    }
}

/// A longer enumerant list covers everything a prefix of it covers.
proof fn lemma_covered_monotone(
    groups: Seq<GroupModel>,
    enums: Seq<EnumerantModel>,
    e: EnumerantModel,
)
    requires
        members_covered(groups, enums),
    ensures
        members_covered(groups, enums.push(e)),
{
    assert forall|gi: int, mi: int|
        #![trigger groups[gi].members[mi]]
        0 <= gi < groups.len() && 0 <= mi < groups[gi].members.len() implies name_in(
        enums.push(e),
        groups[gi].members[mi],
    ) by {
        lemma_name_in_push(enums, e, groups[gi].members[mi]);
    }
}

/// One candidate preserves the specification invariant.
proof fn lemma_candidate_preserves_wf(attrs: Seq<Attribute>, api: Api, acc: SpecModel)
    requires
        model_wf(acc),
    ensures
        spec_process_candidate(attrs, api, acc) matches Ok(m) ==> model_wf(m),
{
    if api_accepts(attrs, api) {
        match spec_getattr(attrs, "name"@) {
            Some(na) => {
                match spec_getattr(attrs, "value"@) {
                    Some(va) => {
                        match spec_create_constant(va.value@) {
                            Ok(c) => {
                                match spec_process_candidate(attrs, api, acc) {
                                    Ok(m) => {
                                        let enums2 = m.enums;
                                        lemma_covered_monotone(
                                            acc.groups,
                                            acc.enums,
                                            enums2.last(),
                                        );
                                        assert(enums2 =~= acc.enums.push(enums2.last()));
                                        assert(enums2[enums2.len() - 1].name == na.value@);
                                        assert(name_in(enums2, na.value@));
                                        match spec_getattr(attrs, "group"@) {
                                            Some(ga) => {
                                                lemma_add_to_groups_covered(
                                                    acc.groups,
                                                    group_names(ga.value@),
                                                    na.value@,
                                                    enums2,
                                                );
                                                lemma_add_to_groups_wf(
                                                    acc.groups,
                                                    group_names(ga.value@),
                                                    na.value@,
                                                );
                                            },
                                            None => {
                                            },
                                        }
                                    },
                                    Err(_) => {
                                    },
                                }
                            },
                            Err(_) => {
                            },
                        }
                    },
                    None => {
                    },
                }
            },
            None => {
            },
        }
    }
}

/// The walk preserves the specification invariant.
proof fn lemma_walk_preserves_wf(
    events: Seq<Event>,
    i: int,
    state: WalkState,
    acc: SpecModel,
    api: Api,
)
    requires
        model_wf(acc),
    ensures
        spec_walk_from(events, i, state, acc, api) matches Ok(m) ==> model_wf(m),
    decreases events.len() - i,
{
    if 0 <= i < events.len() {
        match events[i] {
            Event::ReadError => {
            },
            Event::EndDocument => {
            },
            Event::StartElement { name, attributes } => {
                match state {
                    WalkState::BeforeRoot => {
                        lemma_walk_preserves_wf(events, i + 1, WalkState::BeforeRoot, acc, api);
                        lemma_walk_preserves_wf(events, i + 1, WalkState::InRoot, acc, api);
                    },
                    WalkState::InRoot => {
                        lemma_walk_preserves_wf(events, i + 1, WalkState::InRoot, acc, api);
                        lemma_walk_preserves_wf(
                            events,
                            i + 1,
                            WalkState::InEnumsSection,
                            acc,
                            api,
                        );
                    },
                    WalkState::InEnumsSection => {
                        if name@ == "enum"@ {
                            lemma_candidate_preserves_wf(attributes@, api, acc);
                            match spec_process_candidate(attributes@, api, acc) {
                                Ok(acc2) => {
                                    lemma_walk_preserves_wf(
                                        events,
                                        i + 1,
                                        WalkState::InEnumsSection,
                                        acc2,
                                        api,
                                    );
                                },
                                Err(_) => {
                                },
                            }
                        } else {
                            lemma_walk_preserves_wf(
                                events,
                                i + 1,
                                WalkState::InEnumsSection,
                                acc,
                                api,
                            );
                        }
                    },
                    WalkState::Done => {
                    },
                }
            },
            Event::EndElement { name } => {
                lemma_walk_preserves_wf(events, i + 1, WalkState::InRoot, acc, api);
                lemma_walk_preserves_wf(events, i + 1, state, acc, api);
            },
            _ => {
                lemma_walk_preserves_wf(events, i + 1, state, acc, api);
            },
        }
    }
}

/// The specification invariant holds of every successful walk: a group
/// never references a name that the enumerant list does not hold.
pub proof fn lemma_walk_wf(events: Seq<Event>, api: Api)
    ensures
        spec_walk(events, api) matches Ok(m) ==> model_wf(m),
{
    if events.len() > 0 && events[0] is StartDocument {
        lemma_walk_preserves_wf(events, 1, WalkState::BeforeRoot, empty_model(), api);
    }
}

/// API scoping, exclusion: a candidate rejected by the predicate
/// contributes nothing at all to the model — no enumerant and no group
/// reference.
pub proof fn lemma_api_scoping_excluded(attrs: Seq<Attribute>, api: Api, acc: SpecModel)
    requires
        !api_accepts(attrs, api),
    ensures
        spec_process_candidate(attrs, api, acc) == Ok::<SpecModel, BuildErrorModel>(acc),
{
}

/// API scoping, inclusion: a candidate with no `api` attribute is never
/// excluded by the predicate, under any target family.
pub proof fn lemma_api_absent_included(attrs: Seq<Attribute>, api: Api)
    requires
        spec_getattr(attrs, "api"@) is None,
    ensures
        api_accepts(attrs, api),
{
}

/// Document order, independence from groups: whether a candidate is
/// accepted, which error it raises, and what it appends to the
/// enumerant list never depend on the group map accumulated so far.
pub proof fn lemma_candidate_independent_of_groups(
    attrs: Seq<Attribute>,
    api: Api,
    acc1: SpecModel,
    acc2: SpecModel,
)
    requires
        acc1.enums == acc2.enums,
    ensures
        match (spec_process_candidate(attrs, api, acc1), spec_process_candidate(
            attrs,
            api,
            acc2,
        )) {
            (Ok(m1), Ok(m2)) => m1.enums == m2.enums,
            (Err(e1), Err(e2)) => e1 == e2,
            _ => false,
        },
{
}

/// Does an `enum` candidate contribute an enumerant? It must pass the
/// API-scoping predicate, carry a name and a value, and the value must
/// parse and classify.
pub open spec fn candidate_accepted(attrs: Seq<Attribute>, api: Api) -> bool {
    &&& api_accepts(attrs, api)
    &&& spec_getattr(attrs, "name"@) is Some
    &&& match spec_getattr(attrs, "value"@) {
        Some(va) => spec_create_constant(va.value@) is Ok,
        None => false,
    }
}

/// The enumerant an accepted candidate contributes.
pub open spec fn candidate_entry(attrs: Seq<Attribute>) -> EnumerantModel
    recommends
        spec_getattr(attrs, "name"@) is Some,
        spec_getattr(attrs, "value"@) is Some,
{
    match (spec_getattr(attrs, "name"@), spec_getattr(attrs, "value"@)) {
        (Some(na), Some(va)) => match spec_create_constant(va.value@) {
            Ok(c) => EnumerantModel {
                name: na.value@,
                value: c.value,
                signed: c.signed,
                bitwidth: c.bitwidth,
                alias: match spec_getattr(attrs, "alias"@) {
                    None => None,
                    Some(aa) => Some(aa.value@),
                },
            },
            Err(_) => vstd::pervasive::arbitrary(),
        },
        _ => vstd::pervasive::arbitrary(),
    }
}

/// The enumerants contributed from event `i` on, in the order the
/// events are encountered. (Where the walk fails, the tail past the
/// failure is irrelevant and taken empty.)
pub open spec fn walked_entries(
    events: Seq<Event>,
    i: int,
    state: WalkState,
    api: Api,
) -> Seq<EnumerantModel>
    decreases events.len() - i,
{
    if i < 0 || i >= events.len() {
        Seq::empty()
    } else {
        match events[i] {
            Event::ReadError => Seq::empty(),
            Event::EndDocument => Seq::empty(),
            Event::StartElement { name, attributes } => match state {
                WalkState::BeforeRoot => if name@ == "registry"@ {
                    walked_entries(events, i + 1, WalkState::InRoot, api)
                } else {
                    walked_entries(events, i + 1, WalkState::BeforeRoot, api)
                },
                WalkState::InRoot => if name@ == "enums"@ {
                    walked_entries(events, i + 1, WalkState::InEnumsSection, api)
                } else {
                    walked_entries(events, i + 1, WalkState::InRoot, api)
                },
                WalkState::InEnumsSection => if name@ == "enum"@ {
                    if !api_accepts(attributes@, api) {
                        walked_entries(events, i + 1, WalkState::InEnumsSection, api)
                    } else if candidate_accepted(attributes@, api) {
                        seq![candidate_entry(attributes@)] + walked_entries(
                            events,
                            i + 1,
                            WalkState::InEnumsSection,
                            api,
                        )
                    } else {
                        Seq::empty()
                    }
                } else {
                    walked_entries(events, i + 1, WalkState::InEnumsSection, api)
                },
                WalkState::Done => Seq::empty(),
            },
            Event::EndElement { name } => if state is InEnumsSection && name@ == "enums"@ {
                walked_entries(events, i + 1, WalkState::InRoot, api)
            } else {
                walked_entries(events, i + 1, state, api)
            },
            _ => walked_entries(events, i + 1, state, api),
        }
    }
}

/// Document order, declaratively: a successful walk's enumerant list is
/// exactly what had been accumulated, followed by the accepted
/// candidates in the order they are encountered.
pub proof fn lemma_walk_order(
    events: Seq<Event>,
    i: int,
    state: WalkState,
    acc: SpecModel,
    api: Api,
)
    ensures
        spec_walk_from(events, i, state, acc, api) matches Ok(m) ==> m.enums == acc.enums
            + walked_entries(events, i, state, api),
    decreases events.len() - i,
{
    assert(acc.enums + Seq::<EnumerantModel>::empty() =~= acc.enums);
    if 0 <= i < events.len() {
        match events[i] {
            Event::ReadError => {
            },
            Event::EndDocument => {
            },
            Event::StartElement { name, attributes } => {
                match state {
                    WalkState::BeforeRoot => {
                        lemma_walk_order(events, i + 1, WalkState::BeforeRoot, acc, api);
                        lemma_walk_order(events, i + 1, WalkState::InRoot, acc, api);
                    },
                    WalkState::InRoot => {
                        lemma_walk_order(events, i + 1, WalkState::InRoot, acc, api);
                        lemma_walk_order(events, i + 1, WalkState::InEnumsSection, acc, api);
                    },
                    WalkState::InEnumsSection => {
                        if name@ == "enum"@ {
                            match spec_process_candidate(attributes@, api, acc) {
                                Ok(acc2) => {
                                    lemma_walk_order(
                                        events,
                                        i + 1,
                                        WalkState::InEnumsSection,
                                        acc2,
                                        api,
                                    );
                                    if api_accepts(attributes@, api) {
                                        let en = candidate_entry(attributes@);
                                        assert(acc2.enums == acc.enums.push(en));
                                        let rest = walked_entries(
                                            events,
                                            i + 1,
                                            WalkState::InEnumsSection,
                                            api,
                                        );
                                        assert(acc.enums.push(en) + rest =~= acc.enums + (seq![en]
                                            + rest));
                                    }
                                },
                                Err(_) => {
                                },
                            }
                        } else {
                            lemma_walk_order(events, i + 1, WalkState::InEnumsSection, acc, api);
                        }
                    },
                    WalkState::Done => {
                    },
                }
            },
            Event::EndElement { name } => {
                lemma_walk_order(events, i + 1, WalkState::InRoot, acc, api);
                lemma_walk_order(events, i + 1, state, acc, api);
            },
            _ => {
                lemma_walk_order(events, i + 1, state, acc, api);
            },
        }
    }
}

/// Document order over a whole document: the enumerant list of a
/// successful build is exactly the accepted candidates in encounter
/// order.
pub proof fn lemma_spec_walk_order(events: Seq<Event>, api: Api)
    ensures
        spec_walk(events, api) matches Ok(m) ==> m.enums == walked_entries(
            events,
            1,
            WalkState::BeforeRoot,
            api,
        ),
{
    if events.len() > 0 && events[0] is StartDocument {
        lemma_walk_order(events, 1, WalkState::BeforeRoot, empty_model(), api);
        assert(empty_model().enums + walked_entries(events, 1, WalkState::BeforeRoot, api)
            =~= walked_entries(events, 1, WalkState::BeforeRoot, api));
    }
}

/// Document order, independence from groups, lifted to the whole walk:
/// two walks over the same events whose accumulators agree on the
/// enumerant list agree on the final enumerant list (and on the error,
/// if any), whatever their group maps hold. The list of constants is a
/// function of the events and the target family alone.
pub proof fn lemma_walk_enums_independent_of_groups(
    events: Seq<Event>,
    i: int,
    state: WalkState,
    acc1: SpecModel,
    acc2: SpecModel,
    api: Api,
)
    requires
        acc1.enums == acc2.enums,
    ensures
        match (spec_walk_from(events, i, state, acc1, api), spec_walk_from(
            events,
            i,
            state,
            acc2,
            api,
        )) {
            (Ok(m1), Ok(m2)) => m1.enums == m2.enums,
            (Err(e1), Err(e2)) => e1 == e2,
            _ => false,
        },
    decreases events.len() - i,
{
    if 0 <= i < events.len() {
        match events[i] {
            Event::ReadError => {
            },
            Event::EndDocument => {
            },
            Event::StartElement { name, attributes } => {
                match state {
                    WalkState::BeforeRoot => {
                        lemma_walk_enums_independent_of_groups(
                            events,
                            i + 1,
                            WalkState::BeforeRoot,
                            acc1,
                            acc2,
                            api,
                        );
                        lemma_walk_enums_independent_of_groups(
                            events,
                            i + 1,
                            WalkState::InRoot,
                            acc1,
                            acc2,
                            api,
                        );
                    },
                    WalkState::InRoot => {
                        lemma_walk_enums_independent_of_groups(
                            events,
                            i + 1,
                            WalkState::InRoot,
                            acc1,
                            acc2,
                            api,
                        );
                        lemma_walk_enums_independent_of_groups(
                            events,
                            i + 1,
                            WalkState::InEnumsSection,
                            acc1,
                            acc2,
                            api,
                        );
                    },
                    WalkState::InEnumsSection => {
                        if name@ == "enum"@ {
                            lemma_candidate_independent_of_groups(attributes@, api, acc1, acc2);
                            match (spec_process_candidate(attributes@, api, acc1),
                            spec_process_candidate(attributes@, api, acc2)) {
                                (Ok(n1), Ok(n2)) => {
                                    lemma_walk_enums_independent_of_groups(
                                        events,
                                        i + 1,
                                        WalkState::InEnumsSection,
                                        n1,
                                        n2,
                                        api,
                                    );
                                },
                                _ => {
                                },
                            }
                        } else {
                            lemma_walk_enums_independent_of_groups(
                                events,
                                i + 1,
                                WalkState::InEnumsSection,
                                acc1,
                                acc2,
                                api,
                            );
                        }
                    },
                    WalkState::Done => {
                    },
                }
            },
            Event::EndElement { name } => {
                lemma_walk_enums_independent_of_groups(
                    events,
                    i + 1,
                    WalkState::InRoot,
                    acc1,
                    acc2,
                    api,
                );
                lemma_walk_enums_independent_of_groups(events, i + 1, state, acc1, acc2, api);
            },
            _ => {
                lemma_walk_enums_independent_of_groups(events, i + 1, state, acc1, acc2, api);
            },
        }
    }
}

/// How many times `x` occurs in a list of names.
pub open spec fn count_in(s: Seq<Seq<char>>, x: Seq<char>) -> int
    decreases s.len(),
{
    if s.len() == 0 {
        0
    } else {
        count_in(s.drop_last(), x) + if s.last() == x {
            1int
        } else {
            0int
        }
    }
}

/// How many times `id` stands in the group named `name` (0 when no such
/// group exists).
pub open spec fn group_count(groups: Seq<GroupModel>, name: Seq<char>, id: Seq<char>) -> int {
    match spec_find_group(groups, name) {
        None => 0,
        Some(i) => count_in(groups[i].members, id),
    }
}

proof fn lemma_count_in_push(s: Seq<Seq<char>>, x: Seq<char>, y: Seq<char>)
    ensures
        count_in(s.push(x), y) == count_in(s, y) + if x == y {
            1int
        } else {
            0int
        },
{
    assert(s.push(x).drop_last() =~= s);
    assert(s.push(x).last() == x);
}

proof fn lemma_find_group_update_same_name(gs: Seq<GroupModel>, i: int, g2: GroupModel, n: Seq<
    char,
>)
    requires
        0 <= i < gs.len(),
        g2.name == gs[i].name,
    ensures
        spec_find_group(gs.update(i, g2), n) == spec_find_group(gs, n),
    decreases gs.len(),
{
    let gs2 = gs.update(i, g2);
    if i == 0 {
        assert(gs2.first().name == gs.first().name);
        if gs.first().name != Some(n) {
            assert(gs2.drop_first() =~= gs.drop_first());
        }
    } else {
        assert(gs2.first() == gs.first());
        assert(gs2.drop_first() =~= gs.drop_first().update(i - 1, g2));
        lemma_find_group_update_same_name(gs.drop_first(), i - 1, g2, n);
    }
}

proof fn lemma_find_group_push(gs: Seq<GroupModel>, g2: GroupModel, n: Seq<char>)
    ensures
        spec_find_group(gs.push(g2), n) == (match spec_find_group(gs, n) {
            Some(j) => Some(j),
            None => if g2.name == Some(n) {
                Some(gs.len() as int)
            } else {
                None::<int>
            },
        }),
    decreases gs.len(),
{
    if gs.len() == 0 {
        assert(gs.push(g2).first() == g2);
        assert(gs.push(g2).drop_first() =~= Seq::<GroupModel>::empty());
        assert(spec_find_group(Seq::<GroupModel>::empty(), n) is None);
    } else {
        assert(gs.push(g2).first() == gs.first());
        assert(gs.push(g2).drop_first() =~= gs.drop_first().push(g2));
        lemma_find_group_push(gs.drop_first(), g2, n);
        if gs.first().name != Some(n) {
            assert(spec_find_group(gs.push(g2), n) == (match spec_find_group(
                gs.drop_first().push(g2),
                n,
            ) {
                Some(k) => Some(k + 1),
                None => None::<int>,
            }));
            assert(spec_find_group(gs, n) == (match spec_find_group(gs.drop_first(), n) {
                Some(k) => Some(k + 1),
                None => None::<int>,
            }));
        }
    }
}

/// Appending an id under one name raises that id's count in that name's
/// group by one, and leaves the count under every other name unchanged.
proof fn lemma_add_one_group_count(
    groups: Seq<GroupModel>,
    name: Seq<char>,
    id: Seq<char>,
    n: Seq<char>,
)
    ensures
        group_count(spec_add_one_group(groups, name, id), n, id) == group_count(groups, n, id)
            + if name == n {
            1int
        } else {
            0int
        },
{
    lemma_find_group_some(groups, name);
    lemma_find_group_some(groups, n);
    match spec_find_group(groups, name) {
        Some(i) => {
            let g2 = GroupModel { name: groups[i].name, members: groups[i].members.push(id) };
            lemma_find_group_update_same_name(groups, i, g2, n);
            match spec_find_group(groups, n) {
                Some(j) => {
                    if name == n {
                        assert(i == j);
                        lemma_count_in_push(groups[i].members, id, id);
                    } else {
                        assert(i != j);
                    }
                },
                None => {
                    assert(name != n);
                },
            }
        },
        None => {
            let g2 = GroupModel { name: Some(name), members: seq![id] };
            lemma_find_group_push(groups, g2, n);
            match spec_find_group(groups, n) {
                Some(j) => {
                    assert(name != n);
                },
                None => {
                    if name == n {
                        assert(seq![id].drop_last() =~= Seq::<Seq<char>>::empty());
                        assert(seq![id].last() == id);
                        assert(count_in(Seq::<Seq<char>>::empty(), id) == 0);
                        assert(count_in(seq![id], id) == 1);
                    }
                },
            }
        },
    }
}

/// Appending an id under a list of names raises its count in each named
/// group by the number of occurrences of that name in the list, and
/// touches no other group.
pub proof fn lemma_add_to_groups_count(
    groups: Seq<GroupModel>,
    names: Seq<Seq<char>>,
    id: Seq<char>,
    n: Seq<char>,
)
    ensures
        group_count(spec_add_to_groups(groups, names, id), n, id) == group_count(groups, n, id)
            + count_in(names, n),
    decreases names.len(),
{
    if names.len() > 0 {
        let ns = names.drop_last();
        let x = names.last();
        assert(names =~= ns.push(x));
        lemma_add_to_groups_snoc(groups, ns, x, id);
        lemma_add_to_groups_count(groups, ns, id, n);
        lemma_add_one_group_count(spec_add_to_groups(groups, ns, id), x, id, n);
    }
}

/// Group splitting: an accepted candidate whose `group` attribute
/// splits (on `,`, trimmed) into a list of names has its own name
/// appended under each listed group exactly once per occurrence, and
/// under no other group.
pub proof fn lemma_candidate_group_counts(
    attrs: Seq<Attribute>,
    api: Api,
    acc: SpecModel,
    m: SpecModel,
    na: Attribute,
    ga: Attribute,
    n: Seq<char>,
)
    requires
        api_accepts(attrs, api),
        spec_getattr(attrs, "name"@) == Some(na),
        spec_getattr(attrs, "group"@) == Some(ga),
        spec_process_candidate(attrs, api, acc) == Ok::<SpecModel, BuildErrorModel>(m),
    ensures
        group_count(m.groups, n, na.value@) == group_count(acc.groups, n, na.value@) + count_in(
            group_names(ga.value@),
            n,
        ),
{
    lemma_add_to_groups_count(acc.groups, group_names(ga.value@), na.value@, n);
}

/// Appending one id under one name never changes the count of a
/// different id, in any group.
proof fn lemma_add_one_group_count_other(
    groups: Seq<GroupModel>,
    name: Seq<char>,
    appended: Seq<char>,
    n: Seq<char>,
    id: Seq<char>,
)
    requires
        id != appended,
    ensures
        group_count(spec_add_one_group(groups, name, appended), n, id) == group_count(
            groups,
            n,
            id,
        ),
{
    lemma_find_group_some(groups, name);
    lemma_find_group_some(groups, n);
    match spec_find_group(groups, name) {
        Some(i) => {
            let g2 = GroupModel { name: groups[i].name, members: groups[i].members.push(appended) };
            lemma_find_group_update_same_name(groups, i, g2, n);
            match spec_find_group(groups, n) {
                Some(j) => {
                    if j == i {
                        lemma_count_in_push(groups[i].members, appended, id);
                    }
                },
                None => {
                },
            }
        },
        None => {
            let g2 = GroupModel { name: Some(name), members: seq![appended] };
            lemma_find_group_push(groups, g2, n);
            match spec_find_group(groups, n) {
                Some(_) => {
                },
                None => {
                    if g2.name == Some(n) {
                        assert(seq![appended].drop_last() =~= Seq::<Seq<char>>::empty());
                        assert(count_in(Seq::<Seq<char>>::empty(), id) == 0);
                        assert(count_in(seq![appended], id) == 0);
                    }
                },
            }
        },
    }
}

/// Appending one id under a list of names never changes the count of a
/// different id, in any group.
proof fn lemma_add_to_groups_count_other(
    groups: Seq<GroupModel>,
    names: Seq<Seq<char>>,
    appended: Seq<char>,
    n: Seq<char>,
    id: Seq<char>,
)
    requires
        id != appended,
    ensures
        group_count(spec_add_to_groups(groups, names, appended), n, id) == group_count(
            groups,
            n,
            id,
        ),
    decreases names.len(),
{
    if names.len() > 0 {
        let ns = names.drop_last();
        let x = names.last();
        assert(names =~= ns.push(x));
        lemma_add_to_groups_snoc(groups, ns, x, appended);
        lemma_add_to_groups_count_other(groups, ns, appended, n, id);
        lemma_add_one_group_count_other(spec_add_to_groups(groups, ns, appended), x, appended, n, id);
    }
}

/// What one candidate adds to the count of `id` in the group named
/// `gname`: when the candidate carries that very name and a `group`
/// attribute, one per occurrence of `gname` among its split, trimmed
/// group names; otherwise nothing.
pub open spec fn candidate_group_addition(
    attrs: Seq<Attribute>,
    gname: Seq<char>,
    id: Seq<char>,
) -> int {
    match (spec_getattr(attrs, "name"@), spec_getattr(attrs, "group"@)) {
        (Some(na), Some(ga)) => if na.value@ == id {
            count_in(group_names(ga.value@), gname)
        } else {
            0
        },
        _ => 0,
    }
}

/// The total count of `id` in the group named `gname` contributed by
/// the accepted candidates from event `i` on, in encounter order.
/// (Where the walk fails, the tail past the failure is irrelevant and
/// taken zero.)
pub open spec fn walked_group_additions(
    events: Seq<Event>,
    i: int,
    state: WalkState,
    api: Api,
    gname: Seq<char>,
    id: Seq<char>,
) -> int
    decreases events.len() - i,
{
    if i < 0 || i >= events.len() {
        0
    } else {
        match events[i] {
            Event::ReadError => 0,
            Event::EndDocument => 0,
            Event::StartElement { name, attributes } => match state {
                WalkState::BeforeRoot => if name@ == "registry"@ {
                    walked_group_additions(events, i + 1, WalkState::InRoot, api, gname, id)
                } else {
                    walked_group_additions(events, i + 1, WalkState::BeforeRoot, api, gname, id)
                },
                WalkState::InRoot => if name@ == "enums"@ {
                    walked_group_additions(events, i + 1, WalkState::InEnumsSection, api, gname, id)
                } else {
                    walked_group_additions(events, i + 1, WalkState::InRoot, api, gname, id)
                },
                WalkState::InEnumsSection => if name@ == "enum"@ {
                    if !api_accepts(attributes@, api) {
                        walked_group_additions(
                            events,
                            i + 1,
                            WalkState::InEnumsSection,
                            api,
                            gname,
                            id,
                        )
                    } else if candidate_accepted(attributes@, api) {
                        candidate_group_addition(attributes@, gname, id) + walked_group_additions(
                            events,
                            i + 1,
                            WalkState::InEnumsSection,
                            api,
                            gname,
                            id,
                        )
                    } else {
                        0
                    }
                } else {
                    walked_group_additions(events, i + 1, WalkState::InEnumsSection, api, gname, id)
                },
                WalkState::Done => 0,
            },
            Event::EndElement { name } => if state is InEnumsSection && name@ == "enums"@ {
                walked_group_additions(events, i + 1, WalkState::InRoot, api, gname, id)
            } else {
                walked_group_additions(events, i + 1, state, api, gname, id)
            },
            _ => walked_group_additions(events, i + 1, state, api, gname, id),
        }
    }
}

/// Group splitting over a whole walk: for a successful walk, the count
/// of `id` in the group named `gname` is what the accumulator held plus
/// the accepted candidates' contributions — once per occurrence of
/// `gname` among a candidate's split, trimmed group names, and nothing
/// from any candidate that does not carry the name `id` or carries no
/// `group` attribute.
pub proof fn lemma_walk_group_counts(
    events: Seq<Event>,
    i: int,
    state: WalkState,
    acc: SpecModel,
    api: Api,
    gname: Seq<char>,
    id: Seq<char>,
)
    ensures
        spec_walk_from(events, i, state, acc, api) matches Ok(m) ==> group_count(
            m.groups,
            gname,
            id,
        ) == group_count(acc.groups, gname, id) + walked_group_additions(
            events,
            i,
            state,
            api,
            gname,
            id,
        ),
    decreases events.len() - i,
{
    if 0 <= i < events.len() {
        match events[i] {
            Event::ReadError => {
            },
            Event::EndDocument => {
            },
            Event::StartElement { name, attributes } => {
                match state {
                    WalkState::BeforeRoot => {
                        lemma_walk_group_counts(
                            events,
                            i + 1,
                            WalkState::BeforeRoot,
                            acc,
                            api,
                            gname,
                            id,
                        );
                        lemma_walk_group_counts(
                            events,
                            i + 1,
                            WalkState::InRoot,
                            acc,
                            api,
                            gname,
                            id,
                        );
                    },
                    WalkState::InRoot => {
                        lemma_walk_group_counts(
                            events,
                            i + 1,
                            WalkState::InRoot,
                            acc,
                            api,
                            gname,
                            id,
                        );
                        lemma_walk_group_counts(
                            events,
                            i + 1,
                            WalkState::InEnumsSection,
                            acc,
                            api,
                            gname,
                            id,
                        );
                    },
                    WalkState::InEnumsSection => {
                        if name@ == "enum"@ {
                            match spec_process_candidate(attributes@, api, acc) {
                                Ok(acc2) => {
                                    lemma_walk_group_counts(
                                        events,
                                        i + 1,
                                        WalkState::InEnumsSection,
                                        acc2,
                                        api,
                                        gname,
                                        id,
                                    );
                                    if api_accepts(attributes@, api) {
                                        lemma_candidate_step_count(
                                            attributes@,
                                            api,
                                            acc,
                                            acc2,
                                            gname,
                                            id,
                                        );
                                    }
                                },
                                Err(_) => {
                                },
                            }
                        } else {
                            lemma_walk_group_counts(
                                events,
                                i + 1,
                                WalkState::InEnumsSection,
                                acc,
                                api,
                                gname,
                                id,
                            );
                        }
                    },
                    WalkState::Done => {
                    },
                }
            },
            Event::EndElement { name } => {
                lemma_walk_group_counts(events, i + 1, WalkState::InRoot, acc, api, gname, id);
                lemma_walk_group_counts(events, i + 1, state, acc, api, gname, id);
            },
            _ => {
                lemma_walk_group_counts(events, i + 1, state, acc, api, gname, id);
            },
        }
    }
}

/// One accepted candidate moves the counts by exactly its contribution.
proof fn lemma_candidate_step_count(
    attrs: Seq<Attribute>,
    api: Api,
    acc: SpecModel,
    acc2: SpecModel,
    gname: Seq<char>,
    id: Seq<char>,
)
    requires
        api_accepts(attrs, api),
        spec_process_candidate(attrs, api, acc) == Ok::<SpecModel, BuildErrorModel>(acc2),
    ensures
        group_count(acc2.groups, gname, id) == group_count(acc.groups, gname, id)
            + candidate_group_addition(attrs, gname, id),
{
    match (spec_getattr(attrs, "name"@), spec_getattr(attrs, "group"@)) {
        (Some(na), Some(ga)) => {
            if na.value@ == id {
                lemma_add_to_groups_count(acc.groups, group_names(ga.value@), id, gname);
            } else {
                lemma_add_to_groups_count_other(
                    acc.groups,
                    group_names(ga.value@),
                    na.value@,
                    gname,
                    id,
                );
            }
        },
        _ => {
        },
    }
}

/// Group splitting over a whole document: in a successful build the
/// count of `id` in the group named `gname` is exactly the accepted
/// candidates' total contribution — an entry with `group="A, B,C"`
/// stands once under each of `A`, `B`, `C`, and an entry with no
/// `group` attribute stands in no group.
pub proof fn lemma_spec_walk_group_counts(
    events: Seq<Event>,
    api: Api,
    m: SpecModel,
    gname: Seq<char>,
    id: Seq<char>,
)
    requires
        spec_walk(events, api) == Ok::<SpecModel, BuildErrorModel>(m),
    ensures
        group_count(m.groups, gname, id) == walked_group_additions(
            events,
            1,
            WalkState::BeforeRoot,
            api,
            gname,
            id,
        ),
{
    lemma_walk_group_counts(events, 1, WalkState::BeforeRoot, empty_model(), api, gname, id);
    assert(spec_find_group(empty_model().groups, gname) is None);
}

/// API scoping over a whole document: a name that no accepted candidate
/// carries appears nowhere in a successful build — not in the enumerant
/// list and in no group. In particular an entry excluded by its `api`
/// token contributes nothing, not even a group reference; an entry with
/// no `api` attribute is accepted whenever its name and value are.
pub proof fn lemma_walk_api_scoping(events: Seq<Event>, api: Api, m: SpecModel, n: Seq<char>)
    requires
        spec_walk(events, api) == Ok::<SpecModel, BuildErrorModel>(m),
        !name_in(walked_entries(events, 1, WalkState::BeforeRoot, api), n),
    ensures
        !name_in(m.enums, n),
        forall|gi: int, mi: int|
            #![trigger m.groups[gi].members[mi]]
            0 <= gi < m.groups.len() && 0 <= mi < m.groups[gi].members.len() ==> m.groups[gi].members[mi] != n,
{
    lemma_spec_walk_order(events, api);
    lemma_walk_wf(events, api);
    assert forall|gi: int, mi: int|
        #![trigger m.groups[gi].members[mi]]
        0 <= gi < m.groups.len() && 0 <= mi < m.groups[gi].members.len() implies m.groups[gi].members[mi]
        != n by {
        assert(name_in(m.enums, m.groups[gi].members[mi]));
    }
}

} // verus!
