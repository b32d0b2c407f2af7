//! The Actions assertion: an ordered record of the provenance events that
//! produced an asset.
//!
//! An [`Action`] is one atomic event; [`Actions`] is the ordered event
//! history plus shared software-agent descriptors, templates and
//! assertion-level metadata. Builders return updated values, so a chain of
//! calls configures a value without hidden aliasing.

use vstd::prelude::*;
use crate::value::{Value, VData, vmodel, vseq_model, vmap_model, map_get, keys_unique};
use crate::Error;

verus! {

/// Reserved parameter key holding the ingredient identifiers an action
/// references, as an array of strings.
pub const CAI_INGREDIENT_IDS: &'static str = "org.cai.ingredientIds";

/// Whether `label` is one of the seven legacy action labels of the prior
/// schema version. A reader must still accept these, though new content
/// should not emit them.
pub fn is_v2_deprecated_action(label: &str) -> (r: bool)
    ensures
        r == (label@ == "c2pa.copied"@ || label@ == "c2pa.formatted"@ || label@
            == "c2pa.version_updated"@ || label@ == "c2pa.printed"@ || label@ == "c2pa.managed"@
            || label@ == "c2pa.produced"@ || label@ == "c2pa.saved"@),
{
    let chars = crate::strutil::str_chars(label);
    crate::strutil::chars_eq_str(&chars, "c2pa.copied") || crate::strutil::chars_eq_str(
        &chars,
        "c2pa.formatted",
    ) || crate::strutil::chars_eq_str(&chars, "c2pa.version_updated")
        || crate::strutil::chars_eq_str(&chars, "c2pa.printed") || crate::strutil::chars_eq_str(
        &chars,
        "c2pa.managed",
    ) || crate::strutil::chars_eq_str(&chars, "c2pa.produced") || crate::strutil::chars_eq_str(
        &chars,
        "c2pa.saved",
    )
}

/// A software-agent descriptor: either a bare name or a structured
/// claim-generator-info map. The two forms are told apart by shape when
/// decoding: a text is a name, a map is structured info.
#[derive(Debug, PartialEq)]
pub enum SoftwareAgent {
    String(String),
    ClaimGeneratorInfo(ClaimGeneratorInfo),
}

/// A structured description of the software or hardware that performed
/// an action: an ordered map of fields such as `name` and `version`,
/// open to arbitrary additional keys.
#[derive(Debug, PartialEq)]
pub struct ClaimGeneratorInfo {
    /// The fields, in order. The `name` field is conventionally first.
    pub entries: Vec<(String, Value)>,
}

impl ClaimGeneratorInfo {
    /// Creates an info map with the given `name` field.
    pub fn new(name: &str) -> (r: ClaimGeneratorInfo)
        ensures
            vmap_model(r.entries@) == seq![("name"@, VData::Text(name@))],
    {
        let mut entries: Vec<(String, Value)> = Vec::new();
        entries.push((new_string("name"), Value::Text(new_string(name))));
        proof {
            crate::value::lemma_vmap_model_push(Seq::empty(), entries@[0].0, entries@[0].1);
            assert(vmap_model(Seq::<(String, Value)>::empty()).push(("name"@, VData::Text(name@)))
                =~= seq![("name"@, VData::Text(name@))]);
        }
        ClaimGeneratorInfo { entries }
    }

    /// Sets the `version` field.
    pub fn set_version(self, version: &str) -> (r: ClaimGeneratorInfo)
        ensures
            vmap_model(r.entries@) == vmap_model(self.entries@).push((
                "version"@,
                VData::Text(version@),
            )),
    {
        let mut this = self;
        let ghost old_entries = this.entries@;
        this.entries.push((new_string("version"), Value::Text(new_string(version))));
        proof {
            crate::value::lemma_vmap_model_push(
                old_entries,
                this.entries@.last().0,
                this.entries@.last().1,
            );
            assert(this.entries@ =~= old_entries.push(this.entries@.last()));
        }
        this
    }

    /// Appends an arbitrary field.
    pub fn insert(self, key: &str, value: Value) -> (r: ClaimGeneratorInfo)
        ensures
            vmap_model(r.entries@) == vmap_model(self.entries@).push((key@, vmodel(value))),
    {
        let mut this = self;
        let ghost old_entries = this.entries@;
        this.entries.push((new_string(key), value));
        proof {
            crate::value::lemma_vmap_model_push(
                old_entries,
                this.entries@.last().0,
                this.entries@.last().1,
            );
            assert(this.entries@ =~= old_entries.push(this.entries@.last()));
        }
        this
    }

    /// The `name` field, if present as text.
    pub fn name(&self) -> (r: Option<&String>)
        ensures
            match r {
                Some(s) => map_get(vmap_model(self.entries@), "name"@) == Some(
                    VData::Text(s@),
                ),
                None => forall|t: Seq<char>|
                    map_get(vmap_model(self.entries@), "name"@) != Some(VData::Text(t)),
            },
    {
        match dict_get(&self.entries, "name") {
            Some(v) => match v {
                Value::Text(s) => Some(s),
                _ => None,
            },
            None => None,
        }
    }
}

/// Assertion-level metadata: review ratings, data-source provenance and a
/// reference timestamp, held as an ordered open map.
#[derive(Debug, PartialEq)]
pub struct Metadata {
    /// The metadata fields, in order.
    pub entries: Vec<(String, Value)>,
}

impl Metadata {
    /// Creates an empty metadata map.
    pub fn new() -> (r: Metadata)
        ensures
            vmap_model(r.entries@) == Seq::<(Seq<char>, VData)>::empty(),
    {
        Metadata { entries: Vec::new() }
    }

    /// Appends an arbitrary field.
    pub fn insert(self, key: &str, value: Value) -> (r: Metadata)
        ensures
            vmap_model(r.entries@) == vmap_model(self.entries@).push((key@, vmodel(value))),
    {
        let mut this = self;
        let ghost old_entries = this.entries@;
        this.entries.push((new_string(key), value));
        proof {
            crate::value::lemma_vmap_model_push(
                old_entries,
                this.entries@.last().0,
                this.entries@.last().1,
            );
            assert(this.entries@ =~= old_entries.push(this.entries@.last()));
        }
        this
    }

    /// The `dateTime` field, if present as text.
    pub fn date_time(&self) -> (r: Option<&String>)
        ensures
            match r {
                Some(s) => map_get(vmap_model(self.entries@), "dateTime"@) == Some(
                    VData::Text(s@),
                ),
                None => forall|t: Seq<char>|
                    map_get(vmap_model(self.entries@), "dateTime"@) != Some(VData::Text(t)),
            },
    {
        match dict_get(&self.entries, "dateTime") {
            Some(v) => match v {
                Value::Text(s) => Some(s),
                _ => None,
            },
            None => None,
        }
    }
}

/// A template of defaults for actions with a given label: used by
/// verifiers as documentation and validation hints, never to mutate an
/// action.
#[derive(Debug, PartialEq)]
pub struct ActionTemplate {
    /// The action label this template applies to.
    pub action: String,
    /// The software agent that performs such actions.
    pub software_agent: Option<ClaimGeneratorInfo>,
    /// 0-based index into the shared agent list.
    pub software_agent_index: Option<usize>,
    /// A digital source type URI.
    pub source_type: Option<String>,
    /// An icon resource reference.
    pub icon: Option<Value>,
    /// A human-readable description.
    pub description: Option<String>,
    /// Default parameters for such actions.
    pub template_parameters: Option<Vec<(String, Value)>>,
}

impl ActionTemplate {
    /// Creates a template for the given action label.
    pub fn new(action: &str) -> (r: ActionTemplate)
        ensures
            r.action@ == action@,
            r.software_agent is None,
            r.software_agent_index is None,
            r.source_type is None,
            r.icon is None,
            r.description is None,
            r.template_parameters is None,
    {
        ActionTemplate {
            action: new_string(action),
            software_agent: None,
            software_agent_index: None,
            source_type: None,
            icon: None,
            description: None,
            template_parameters: None,
        }
    }
}

/// Defines a single action taken on an asset: what took place, when, and
/// with what software, parameters and actors.
#[derive(Debug, PartialEq)]
pub struct Action {
    /// The label associated with this action (see [`c2pa_action`]), or a
    /// custom reverse-domain string.
    pub action: String,
    /// Timestamp of when the action occurred.
    pub when: Option<String>,
    /// The software agent that performed the action.
    pub software_agent: Option<SoftwareAgent>,
    /// 0-based index into the shared agent list.
    pub software_agent_index: Option<usize>,
    /// A semicolon-delimited list of the changed parts of the resource.
    pub changed: Option<String>,
    /// The regions of interest that changed, as structured descriptors.
    pub changes: Option<Vec<Value>>,
    /// Deprecated single instance identifier: still read from older
    /// content, never written.
    pub instance_id: Option<String>,
    /// Additional parameters of the action; keys are unique.
    pub parameters: Option<Vec<(String, Value)>>,
    /// The actors that undertook this action, as structured descriptors.
    pub actors: Option<Vec<Value>>,
    /// A digital source type URI.
    pub source_type: Option<String>,
    /// Related sub-actions.
    pub related: Option<Vec<Action>>,
    /// Why the action was performed; required for redactions.
    pub reason: Option<String>,
    /// A human-readable description.
    pub description: Option<String>,
}

/// Well-formedness of an action: parameter keys are unique, recursively
/// through related actions.
pub open spec fn wf_action(a: Action) -> bool
    decreases a,
{
    &&& (match a.parameters {
        Some(p) => keys_unique(vmap_model(p@)),
        None => true,
    })
    &&& (match a.related {
        Some(r) => forall|i: int| 0 <= i < r@.len() ==> wf_action(#[trigger] r@[i]),
        None => true,
    })
}

/// The model of an action's parameter map: empty when absent.
pub open spec fn params_model(p: Option<Vec<(String, Value)>>) -> Seq<(Seq<char>, VData)> {
    match p {
        Some(v) => vmap_model(v@),
        None => Seq::empty(),
    }
}

/// The ingredient identifiers of an action, per its parameters and the
/// deprecated instance identifier: the reserved parameter wins when it
/// holds an array of strings; a malformed reserved parameter — not an
/// array, or an array with a non-text element — reads as absent; with
/// no reserved parameter the deprecated identifier, if any, stands
/// alone.
pub open spec fn spec_ingredient_ids(a: Action) -> Option<Seq<Seq<char>>> {
    match map_get(params_model(a.parameters), "org.cai.ingredientIds"@) {
        Some(v) => match v {
            VData::Array(xs) => texts_exact(xs),
            _ => None,
        },
        None => match a.instance_id {
            Some(id) => Some(seq![id@]),
            None => None,
        },
    }
}

/// The strings of a sequence of values, in order, when every element is
/// text; a sequence with any non-text element is not an array of
/// strings.
pub open spec fn texts_exact(xs: Seq<VData>) -> Option<Seq<Seq<char>>>
    decreases xs.len(),
{
    if xs.len() == 0 {
        Some(Seq::empty())
    } else {
        match xs[0] {
            VData::Text(t) => match texts_exact(xs.drop_first()) {
                Some(r) => Some(seq![t] + r),
                None => None,
            },
            _ => None,
        }
    }
}

/// Replaces the value of the first entry with key `k`, or appends a new
/// entry when no entry has that key.
pub open spec fn map_put(m: Seq<(Seq<char>, VData)>, k: Seq<char>, v: VData) -> Seq<
    (Seq<char>, VData),
>
    decreases m.len(),
{
    if m.len() == 0 {
        seq![(k, v)]
    } else if m[0].0 == k {
        seq![(m[0].0, v)] + m.drop_first()
    } else {
        seq![m[0]] + map_put(m.drop_first(), k, v)
    }
}

/// Looking up a key after putting it yields the value just put.
pub proof fn lemma_map_put_get(m: Seq<(Seq<char>, VData)>, k: Seq<char>, v: VData)
    ensures
        map_get(map_put(m, k, v), k) == Some(v),
    decreases m.len(),
{
    if m.len() != 0 && m[0].0 != k {
        lemma_map_put_get(m.drop_first(), k, v);
        assert((seq![m[0]] + map_put(m.drop_first(), k, v)).drop_first() =~= map_put(
            m.drop_first(),
            k,
            v,
        ));
    }
}

/// Putting one key leaves every other key's lookup unchanged.
pub proof fn lemma_map_put_get_other(
    m: Seq<(Seq<char>, VData)>,
    k: Seq<char>,
    v: VData,
    k2: Seq<char>,
)
    requires
        k2 != k,
    ensures
        map_get(map_put(m, k, v), k2) == map_get(m, k2),
    decreases m.len(),
{
    if m.len() == 0 {
        assert(seq![(k, v)].drop_first() =~= Seq::<(Seq<char>, VData)>::empty());
        assert(map_get(seq![(k, v)].drop_first(), k2) is None);
    }
    if m.len() != 0 {
        if m[0].0 == k {
            assert((seq![(m[0].0, v)] + m.drop_first())[0] == (m[0].0, v));
            assert((seq![(m[0].0, v)] + m.drop_first()).drop_first() =~= m.drop_first());
        } else {
            lemma_map_put_get_other(m.drop_first(), k, v, k2);
            assert((seq![m[0]] + map_put(m.drop_first(), k, v))[0] == m[0]);
            assert((seq![m[0]] + map_put(m.drop_first(), k, v)).drop_first() =~= map_put(
                m.drop_first(),
                k,
                v,
            ));
        }
    }
}

/// Putting a key keeps key-uniqueness.
pub proof fn lemma_map_put_unique(m: Seq<(Seq<char>, VData)>, k: Seq<char>, v: VData)
    requires
        keys_unique(m),
    ensures
        keys_unique(map_put(m, k, v)),
    decreases m.len(),
{
    if m.len() == 0 {
    } else if m[0].0 == k {
        let r = seq![(m[0].0, v)] + m.drop_first();
        assert forall|i: int, j: int| 0 <= i < j < r.len() implies (#[trigger] r[i].0)
            != (#[trigger] r[j].0) by {
            assert(m[i].0 == r[i].0 && m[j].0 == r[j].0);
        }
    } else {
        assert(keys_unique(m.drop_first())) by {
            assert(forall|i: int, j: int|
                0 <= i < j < m.drop_first().len() ==> m.drop_first()[i] == m[i + 1]
                    && m.drop_first()[j] == m[j + 1]);
        }
        lemma_map_put_unique(m.drop_first(), k, v);
        let r = seq![m[0]] + map_put(m.drop_first(), k, v);
        lemma_map_put_keys(m.drop_first(), k, v);
        assert forall|i: int, j: int| 0 <= i < j < r.len() implies (#[trigger] r[i].0)
            != (#[trigger] r[j].0) by {
            if i == 0 {
                let t = map_put(m.drop_first(), k, v);
                assert(r[j].0 == t[j - 1].0);
                if exists|x: int| 0 <= x < m.drop_first().len() && m.drop_first()[x].0 == t[j
                    - 1].0 {
                } else {
                    assert(t[j - 1].0 == k);
                }
            } else {
                let t = map_put(m.drop_first(), k, v);
                assert(r[i].0 == t[i - 1].0 && r[j].0 == t[j - 1].0);
                assert(keys_unique(t));
            }
        }
    }
}

/// Every key of a put result is an original key or the put key.
pub proof fn lemma_map_put_keys(m: Seq<(Seq<char>, VData)>, k: Seq<char>, v: VData)
    ensures
        forall|j: int|
            0 <= j < map_put(m, k, v).len() ==> ((#[trigger] map_put(m, k, v)[j].0) == k || exists|
                x: int,
            | 0 <= x < m.len() && m[x].0 == map_put(m, k, v)[j].0),
    decreases m.len(),
{
    if m.len() == 0 {
    } else if m[0].0 == k {
        let r = seq![(m[0].0, v)] + m.drop_first();
        assert forall|j: int| 0 <= j < r.len() implies ((#[trigger] r[j].0) == k || exists|x: int|
            0 <= x < m.len() && m[x].0 == r[j].0) by {
            if j > 0 {
                assert(m[j].0 == r[j].0);
            }
        }
    } else {
        lemma_map_put_keys(m.drop_first(), k, v);
        let t = map_put(m.drop_first(), k, v);
        let r = seq![m[0]] + t;
        assert forall|j: int| 0 <= j < r.len() implies ((#[trigger] r[j].0) == k || exists|x: int|
            0 <= x < m.len() && m[x].0 == r[j].0) by {
            if j == 0 {
                assert(m[0].0 == r[0].0);
            } else {
                assert(r[j].0 == t[j - 1].0);
                if t[j - 1].0 != k {
                    let x = choose|x: int|
                        0 <= x < m.drop_first().len() && m.drop_first()[x].0 == t[j - 1].0;
                    assert(m[x + 1].0 == r[j].0);
                }
            }
        }
    }
}

/// When the first entry with key `k` stands at `i`, every put is an
/// update in place, whatever the value.
pub proof fn lemma_map_put_at_all(m: Seq<(Seq<char>, VData)>, k: Seq<char>, i: int)
    requires
        0 <= i < m.len(),
        m[i].0 == k,
        forall|j: int| 0 <= j < i ==> (#[trigger] m[j]).0 != k,
    ensures
        forall|v: VData| #[trigger] map_put(m, k, v) == m.update(i, (m[i].0, v)),
        forall|v: VData| keys_unique(m) ==> keys_unique(#[trigger] map_put(m, k, v)),
{
    assert forall|v: VData| #[trigger] map_put(m, k, v) == m.update(i, (m[i].0, v)) by {
        lemma_map_put_at(m, k, v, i);
    }
    assert forall|v: VData| keys_unique(m) implies keys_unique(#[trigger] map_put(m, k, v)) by {
        lemma_map_put_unique(m, k, v);
    }
}

/// Updating one entry updates its model pointwise, for every entry.
pub proof fn lemma_vmap_model_update_all(s: Seq<(String, Value)>, i: int)
    requires
        0 <= i < s.len(),
    ensures
        forall|k: String, v: Value| #[trigger] vmap_model(s.update(i, (k, v))) == vmap_model(
            s,
        ).update(i, (k@, vmodel(v))),
{
    assert forall|k: String, v: Value| #[trigger] vmap_model(s.update(i, (k, v))) == vmap_model(
        s,
    ).update(i, (k@, vmodel(v))) by {
        lemma_vmap_model_update(s, i, k, v);
    }
}

/// Looks a key up in an entry vector: the first entry whose key matches.
pub fn dict_get<'a>(entries: &'a Vec<(String, Value)>, key: &str) -> (r: Option<&'a Value>)
    ensures
        match r {
            Some(v) => map_get(vmap_model(entries@), key@) == Some(vmodel(*v)) && (exists|i: int|
                0 <= i < entries@.len() && (#[trigger] entries@[i]).1 == *v),
            None => map_get(vmap_model(entries@), key@) is None,
        },
{
    let kc = crate::strutil::str_chars(key);
    let mut i: usize = 0;
    while i < entries.len()
        invariant
            i <= entries@.len(),
            kc@ == key@,
            forall|j: int| 0 <= j < i ==> (#[trigger] entries@[j]).0@ != key@,
        decreases entries@.len() - i,
    {
        if crate::strutil::chars_eq_str(&kc, entries[i].0.as_str()) {
            proof {
                crate::value::lemma_vmap_model_len(entries@);
                assert forall|j: int| 0 <= j < i implies (#[trigger] vmap_model(entries@)[j]).0
                    != key@ by {
                    crate::value::lemma_vmap_model_index(entries@, j);
                }
                crate::value::lemma_vmap_model_index(entries@, i as int);
                lemma_map_get_at(vmap_model(entries@), key@, i as int);
            }
            return Some(&entries[i].1);
        }
        i = i + 1;
    }
    proof {
        crate::value::lemma_vmap_model_len(entries@);
        assert forall|j: int| 0 <= j < entries@.len() implies (#[trigger] vmap_model(
            entries@,
        )[j]).0 != key@ by {
            crate::value::lemma_vmap_model_index(entries@, j);
        }
        lemma_map_get_none(vmap_model(entries@), key@);
    }
    None
}

/// When no key matches, lookup yields nothing.
pub proof fn lemma_map_get_none(m: Seq<(Seq<char>, VData)>, k: Seq<char>)
    requires
        forall|j: int| 0 <= j < m.len() ==> (#[trigger] m[j]).0 != k,
    ensures
        map_get(m, k) is None,
    decreases m.len(),
{
    if m.len() != 0 {
        assert(forall|j: int| 0 <= j < m.drop_first().len() ==> m.drop_first()[j] == m[j + 1]);
        lemma_map_get_none(m.drop_first(), k);
    }
}

/// When the first match is at `i`, lookup yields that entry's value.
pub proof fn lemma_map_get_at(m: Seq<(Seq<char>, VData)>, k: Seq<char>, i: int)
    requires
        0 <= i < m.len(),
        m[i].0 == k,
        forall|j: int| 0 <= j < i ==> (#[trigger] m[j]).0 != k,
    ensures
        map_get(m, k) == Some(m[i].1),
    decreases i,
{
    if i > 0 {
        assert(forall|j: int| 0 <= j < m.drop_first().len() ==> m.drop_first()[j] == m[j + 1]);
        lemma_map_get_at(m.drop_first(), k, i - 1);
    }
}

/// Builds an owned `String` from a slice.
pub fn new_string(s: &str) -> (r: String)
    ensures
        r@ == s@,
{
    let chars = crate::strutil::str_chars(s);
    crate::strutil::chars_to_string(&chars)
}



/// The views of a sequence of strings.
pub open spec fn strs_view(v: Seq<String>) -> Seq<Seq<char>> {
    Seq::new(v.len(), |i: int| v[i]@)
}

/// The strings joined with semicolons.
pub open spec fn spec_join_semicolon(v: Seq<Seq<char>>) -> Seq<char>
    decreases v.len(),
{
    if v.len() == 0 {
        Seq::empty()
    } else if v.len() == 1 {
        v[0]
    } else {
        spec_join_semicolon(v.drop_last()) + seq![';'] + v.last()
    }
}

fn join_semicolon(v: &Vec<String>) -> (r: String)
    ensures
        r@ == spec_join_semicolon(strs_view(v@)),
{
    let mut chars: Vec<char> = Vec::new();
    let mut i: usize = 0;
    while i < v.len()
        invariant
            i <= v@.len(),
            chars@ == spec_join_semicolon(strs_view(v@).take(i as int)),
        decreases v@.len() - i,
    {
        if i > 0 {
            chars.push(';');
        }
        let sc = crate::strutil::str_chars(v[i].as_str());
        chars.extend_from_slice(sc.as_slice());
        i = i + 1;
        proof {
            let w = strs_view(v@);
            assert(w.take(i as int).drop_last() =~= w.take(i - 1));
            assert(w.take(i as int).last() == w[i - 1]);
            if i == 1 {
                assert(chars@ =~= spec_join_semicolon(w.take(i as int)));
            } else {
                assert(chars@ =~= spec_join_semicolon(w.take(i - 1)) + seq![';'] + w[i - 1]);
            }
        }
    }
    proof {
        assert(strs_view(v@).take(v@.len() as int) =~= strs_view(v@));
    }
    crate::strutil::chars_to_string(&chars)
}

/// Index of the first entry with the given key, if any.
fn find_key(params: &Vec<(String, Value)>, key: &str) -> (r: Option<usize>)
    ensures
        match r {
            Some(i) => i < params@.len() && params@[i as int].0@ == key@ && (forall|j: int|
                0 <= j < i ==> (#[trigger] params@[j]).0@ != key@),
            None => forall|j: int| 0 <= j < params@.len() ==> (#[trigger] params@[j]).0@ != key@,
        },
{
    let kc = crate::strutil::str_chars(key);
    let mut i: usize = 0;
    while i < params.len()
        invariant
            i <= params@.len(),
            kc@ == key@,
            forall|j: int| 0 <= j < i ==> (#[trigger] params@[j]).0@ != key@,
        decreases params@.len() - i,
    {
        if crate::strutil::chars_eq_str(&kc, params[i].0.as_str()) {
            return Some(i);
        }
        i = i + 1;
    }
    None
}

/// When the first entry with key `k` stands at `i`, a put is an update
/// in place.
pub proof fn lemma_map_put_at(m: Seq<(Seq<char>, VData)>, k: Seq<char>, v: VData, i: int)
    requires
        0 <= i < m.len(),
        m[i].0 == k,
        forall|j: int| 0 <= j < i ==> (#[trigger] m[j]).0 != k,
    ensures
        map_put(m, k, v) == m.update(i, (m[i].0, v)),
    decreases i,
{
    if i == 0 {
        assert(map_put(m, k, v) =~= m.update(0, (m[0].0, v)));
    } else {
        assert(forall|j: int| 0 <= j < m.drop_first().len() ==> m.drop_first()[j] == m[j + 1]);
        lemma_map_put_at(m.drop_first(), k, v, i - 1);
        assert(map_put(m, k, v) =~= m.update(i, (m[i].0, v)));
    }
}

/// When no entry has key `k`, a put is an append.
pub proof fn lemma_map_put_append(m: Seq<(Seq<char>, VData)>, k: Seq<char>, v: VData)
    requires
        forall|j: int| 0 <= j < m.len() ==> (#[trigger] m[j]).0 != k,
    ensures
        map_put(m, k, v) == m.push((k, v)),
    decreases m.len(),
{
    if m.len() == 0 {
        assert(map_put(m, k, v) =~= m.push((k, v)));
    } else {
        assert(forall|j: int| 0 <= j < m.drop_first().len() ==> m.drop_first()[j] == m[j + 1]);
        lemma_map_put_append(m.drop_first(), k, v);
        assert(map_put(m, k, v) =~= m.push((k, v)));
    }
}

/// Updating one entry updates its model pointwise.
pub proof fn lemma_vmap_model_update(s: Seq<(String, Value)>, i: int, k: String, v: Value)
    requires
        0 <= i < s.len(),
    ensures
        vmap_model(s.update(i, (k, v))) == vmap_model(s).update(i, (k@, vmodel(v))),
{
    let lhs = vmap_model(s.update(i, (k, v)));
    let rhs = vmap_model(s).update(i, (k@, vmodel(v)));
    crate::value::lemma_vmap_model_len(s);
    crate::value::lemma_vmap_model_len(s.update(i, (k, v)));
    assert forall|j: int| 0 <= j < s.len() implies lhs[j] == rhs[j] by {
        crate::value::lemma_vmap_model_index(s.update(i, (k, v)), j);
        if j != i {
            crate::value::lemma_vmap_model_index(s, j);
        }
    }
    assert(lhs =~= rhs);
}

impl Action {
    /// Create a new action with a specific action label.
    ///
    /// This label is often one of the labels defined in [`c2pa_action`],
    /// but can also be a custom string in reverse-domain format.
    ///
    /// [`c2pa_action`]: crate::c2pa_action
    pub fn new(label: &str) -> (r: Action)
        ensures
            r.action@ == label@,
            r.when is None,
            r.software_agent is None,
            r.software_agent_index is None,
            r.changed is None,
            r.changes is None,
            r.instance_id is None,
            r.parameters is None,
            r.actors is None,
            r.source_type is None,
            r.related is None,
            r.reason is None,
            r.description is None,
            wf_action(r),
    {
        Action {
            action: new_string(label),
            when: None,
            software_agent: None,
            software_agent_index: None,
            changed: None,
            changes: None,
            instance_id: None,
            parameters: None,
            actors: None,
            source_type: None,
            related: None,
            reason: None,
            description: None,
        }
    }

    /// Returns the label for this action.
    pub fn action(&self) -> (r: &str)
        ensures
            r@ == self.action@,
    {
        self.action.as_str()
    }

    /// Returns the timestamp of when the action occurred, in ISO-8601
    /// date format.
    pub fn when(&self) -> (r: Option<&str>)
        ensures
            match r {
                Some(s) => self.when matches Some(w) && s@ == w@,
                None => self.when is None,
            },
    {
        match &self.when {
            Some(s) => Some(s.as_str()),
            None => None,
        }
    }

    /// Returns the software agent that performed the action.
    pub fn software_agent(&self) -> (r: Option<&SoftwareAgent>)
        ensures
            match r {
                Some(a) => self.software_agent matches Some(x) && *a == x,
                None => self.software_agent is None,
            },
    {
        self.software_agent.as_ref()
    }

    /// Returns the deprecated single instance identifier, if older
    /// content carried one.
    pub fn instance_id(&self) -> (r: Option<&str>)
        ensures
            match r {
                Some(s) => self.instance_id matches Some(w) && s@ == w@,
                None => self.instance_id is None,
            },
    {
        match &self.instance_id {
            Some(s) => Some(s.as_str()),
            None => None,
        }
    }

    /// Returns the regions of interest that changed.
    pub fn changes(&self) -> (r: Option<&Vec<Value>>)
        ensures
            match r {
                Some(c) => self.changes matches Some(x) && *c == x,
                None => self.changes is None,
            },
    {
        self.changes.as_ref()
    }

    /// Returns the additional parameters for this action. These vary by
    /// the type of action.
    pub fn parameters(&self) -> (r: Option<&Vec<(String, Value)>>)
        ensures
            match r {
                Some(p) => self.parameters matches Some(x) && *p == x,
                None => self.parameters is None,
            },
    {
        self.parameters.as_ref()
    }

    /// Returns an individual action parameter if it exists.
    pub fn get_parameter(&self, key: &str) -> (r: Option<&Value>)
        ensures
            match r {
                Some(v) => map_get(params_model(self.parameters), key@) == Some(vmodel(*v)),
                None => map_get(params_model(self.parameters), key@) is None,
            },
    {
        match &self.parameters {
            Some(p) => dict_get(p, key),
            None => None,
        }
    }

    /// Returns a mutable individual action parameter if it exists. The
    /// new value written through it replaces the old one under the same
    /// key.
    pub fn get_parameter_mut(&mut self, key: &str) -> (r: Option<&mut Value>)
        ensures
            match r {
                Some(v) => map_get(params_model(old(self).parameters), key@) == Some(vmodel(*v))
                    && (final(self).parameters matches Some(p) && vmap_model(p@) == map_put(
                    params_model(old(self).parameters),
                    key@,
                    vmodel(*final(v)),
                )) && *final(self) == (Action {
                    parameters: final(self).parameters,
                    ..*old(self)
                }) && (wf_action(*old(self)) ==> wf_action(*final(self))),
                None => map_get(params_model(old(self).parameters), key@) is None && *final(self)
                    == *old(self),
            },
    {
        match &mut self.parameters {
            Some(p) => {
                let ghost old_params = p@;
                match find_key(p, key) {
                    Some(i) => {
                        proof {
                            crate::value::lemma_vmap_model_len(old_params);
                            assert forall|j: int| 0 <= j < i implies (#[trigger] vmap_model(
                                old_params,
                            )[j]).0 != key@ by {
                                crate::value::lemma_vmap_model_index(old_params, j);
                            }
                            crate::value::lemma_vmap_model_index(old_params, i as int);
                            lemma_map_get_at(vmap_model(old_params), key@, i as int);
                        }
                        proof {
                            lemma_map_put_at_all(vmap_model(old_params), key@, i as int);
                            lemma_vmap_model_update_all(old_params, i as int);
                            assert(old_params[i as int].0@ == vmap_model(
                                old_params,
                            )[i as int].0);
                        }
                        let entry = &mut p[i];
                        Some(&mut entry.1)
                    },
                    None => {
                        proof {
                            crate::value::lemma_vmap_model_len(old_params);
                            assert forall|j: int| 0 <= j < vmap_model(old_params).len() implies (
                            #[trigger] vmap_model(old_params)[j]).0 != key@ by {
                                crate::value::lemma_vmap_model_index(old_params, j);
                            }
                            lemma_map_get_none(vmap_model(old_params), key@);
                        }
                        None
                    },
                }
            },
            None => None,
        }
    }

    /// An array of the actors that undertook this action.
    pub fn actors(&self) -> (r: Option<&Vec<Value>>)
        ensures
            match r {
                Some(a) => self.actors matches Some(x) && *a == x,
                None => self.actors is None,
            },
    {
        self.actors.as_ref()
    }

    /// Returns the digital source type URI.
    pub fn source_type(&self) -> (r: Option<&str>)
        ensures
            match r {
                Some(s) => self.source_type matches Some(w) && s@ == w@,
                None => self.source_type is None,
            },
    {
        match &self.source_type {
            Some(s) => Some(s.as_str()),
            None => None,
        }
    }

    /// Returns the list of related actions.
    pub fn related(&self) -> (r: Option<&Vec<Action>>)
        ensures
            match r {
                Some(a) => self.related matches Some(x) && *a == x,
                None => self.related is None,
            },
    {
        self.related.as_ref()
    }

    /// Returns the reason why this action was performed.
    pub fn reason(&self) -> (r: Option<&str>)
        ensures
            match r {
                Some(s) => self.reason matches Some(w) && s@ == w@,
                None => self.reason is None,
            },
    {
        match &self.reason {
            Some(s) => Some(s.as_str()),
            None => None,
        }
    }

    /// Returns the human-readable description.
    pub fn description(&self) -> (r: Option<&str>)
        ensures
            match r {
                Some(s) => self.description matches Some(w) && s@ == w@,
                None => self.description is None,
            },
    {
        match &self.description {
            Some(s) => Some(s.as_str()),
            None => None,
        }
    }

    /// Returns a mutable software agent that performed the action.
    pub fn software_agent_mut(&mut self) -> (r: Option<&mut SoftwareAgent>)
        ensures
            match r {
                Some(a) => old(self).software_agent == Some(*a) && *final(self) == (Action {
                    software_agent: Some(*final(a)),
                    ..*old(self)
                }),
                None => old(self).software_agent is None && *final(self) == *old(self),
            },
    {
        self.software_agent.as_mut()
    }

    /// Sets the timestamp for when the action occurred, in ISO-8601 date
    /// format.
    pub fn set_when(self, when: &str) -> (r: Action)
        ensures
            r == (Action { when: r.when, ..self }),
            r.when matches Some(w) && w@ == when@,
    {
        Action { when: Some(new_string(when)), ..self }
    }

    /// Sets the software agent that performed the action.
    pub fn set_software_agent(self, software_agent: SoftwareAgent) -> (r: Action)
        ensures
            r == (Action { software_agent: r.software_agent, ..self }),
            r.software_agent == Some(software_agent),
    {
        Action { software_agent: Some(software_agent), ..self }
    }

    /// Sets the list of the parts of the resource that were changed
    /// since the previous event history, joined with semicolons.
    pub fn set_changed(self, changed: Option<&Vec<String>>) -> (r: Action)
        ensures
            r == (Action { changed: r.changed, ..self }),
            match changed {
                Some(c) => r.changed matches Some(j) && j@ == spec_join_semicolon(strs_view(c@)),
                None => r.changed is None,
            },
    {
        match changed {
            Some(c) => {
                let joined = join_semicolon(c);
                Action { changed: Some(joined), ..self }
            },
            None => Action { changed: None, ..self },
        }
    }

    /// Sets the deprecated instance identifier by recording it as an
    /// ingredient identifier under the reserved parameter key.
    pub fn set_instance_id(self, id: &str) -> (r: Action)
        ensures
            r == (Action { parameters: r.parameters, ..self }),
            r.parameters matches Some(p) && vmap_model(p@) == map_put(
                params_model(self.parameters),
                "org.cai.ingredientIds"@,
                VData::Array(
                    match map_get(params_model(self.parameters), "org.cai.ingredientIds"@) {
                        Some(VData::Array(xs)) => xs.push(VData::Text(id@)),
                        _ => seq![VData::Text(id@)],
                    },
                ),
            ),
            wf_action(self) ==> wf_action(r),
    {
        let mut this = self;
        this.add_ingredient_id(id);
        this
    }

    /// Sets an additional parameter for this action, replacing any
    /// earlier value under the same key. The value is stored in the same
    /// structured form the whole assertion is encoded in, so
    /// heterogeneous inputs are normalized uniformly.
    pub fn set_parameter(self, key: &str, value: Value) -> (r: Result<Action, Error>)
        ensures
            r matches Ok(a) && (a == (Action { parameters: a.parameters, ..self })
                && (a.parameters matches Some(p) && vmap_model(p@) == map_put(
                params_model(self.parameters),
                key@,
                vmodel(value),
            )) && (wf_action(self) ==> wf_action(a))),
    {
        let mut this = self;
        this.put_parameter(key, value);
        Ok(this)
    }

    /// Replaces or appends one parameter entry in place.
    fn put_parameter(&mut self, key: &str, value: Value)
        ensures
            *final(self) == (Action { parameters: final(self).parameters, ..*old(self) }),
            final(self).parameters matches Some(p) && vmap_model(p@) == map_put(
                params_model(old(self).parameters),
                key@,
                vmodel(value),
            ),
            wf_action(*old(self)) ==> wf_action(*final(self)),
    {
        let ghost old_model = params_model(old(self).parameters);
        let mut params: Vec<(String, Value)> = match self.parameters.take() {
            Some(p) => p,
            None => Vec::new(),
        };
        proof {
            if old(self).parameters is None {
                assert(params@ =~= Seq::<(String, Value)>::empty());
                assert(vmap_model(params@) =~= old_model);
            }
        }
        let ghost old_params = params@;
        match find_key(&params, key) {
            Some(i) => {
                let old_pair = params.remove(i);
                params.insert(i, (old_pair.0, value));
                proof {
                    crate::value::lemma_vmap_model_len(old_params);
                    assert forall|j: int| 0 <= j < i implies (#[trigger] vmap_model(
                        old_params,
                    )[j]).0 != key@ by {
                        crate::value::lemma_vmap_model_index(old_params, j);
                    }
                    crate::value::lemma_vmap_model_index(old_params, i as int);
                    lemma_map_put_at(vmap_model(old_params), key@, vmodel(value), i as int);
                    assert(params@ =~= old_params.update(i as int, (old_pair.0, value)));
                    lemma_vmap_model_update(old_params, i as int, old_pair.0, value);
                    assert(vmap_model(old_params).update(
                        i as int,
                        (old_pair.0@, vmodel(value)),
                    ) =~= vmap_model(old_params).update(i as int, (vmap_model(old_params)[i as int].0, vmodel(value))));
                }
            },
            None => {
                params.push((new_string(key), value));
                proof {
                    crate::value::lemma_vmap_model_push(
                        old_params,
                        params@.last().0,
                        params@.last().1,
                    );
                    assert(params@ =~= old_params.push(params@.last()));
                    crate::value::lemma_vmap_model_len(old_params);
                    assert forall|j: int| 0 <= j < vmap_model(old_params).len() implies (
                    #[trigger] vmap_model(old_params)[j]).0 != key@ by {
                        crate::value::lemma_vmap_model_index(old_params, j);
                    }
                    lemma_map_put_append(vmap_model(old_params), key@, vmodel(value));
                    assert(vmap_model(old_params).push((key@, vmodel(value))) =~= vmap_model(
                        old_params,
                    ).push((params@.last().0@, vmodel(params@.last().1))));
                }
            },
        }
        proof {
            if wf_action(*old(self)) {
                if old(self).parameters is None {
                    assert(keys_unique(old_model));
                }
                lemma_map_put_unique(old_model, key@, vmodel(value));
            }
        }
        self.parameters = Some(params);
    }

    /// Sets the array of actors that undertook this action.
    pub fn set_actors(self, actors: Option<Vec<Value>>) -> (r: Action)
        ensures
            r == (Action { actors: r.actors, ..self }),
            r.actors == actors,
    {
        Action { actors, ..self }
    }

    /// Set a digital source type URI.
    pub fn set_source_type(self, uri: &str) -> (r: Action)
        ensures
            r == (Action { source_type: r.source_type, ..self }),
            r.source_type matches Some(s) && s@ == uri@,
    {
        Action { source_type: Some(new_string(uri)), ..self }
    }

    /// Sets the list of related actions.
    pub fn set_related(self, related: Option<Vec<Action>>) -> (r: Action)
        ensures
            r == (Action { related: r.related, ..self }),
            r.related == related,
    {
        Action { related, ..self }
    }

    /// Sets the reason why this action was performed. A reason is
    /// required when the action denotes a redaction.
    pub fn set_reason(self, reason: &str) -> (r: Action)
        ensures
            r == (Action { reason: r.reason, ..self }),
            r.reason matches Some(s) && s@ == reason@,
    {
        Action { reason: Some(new_string(reason)), ..self }
    }

    /// Adds a region of interest that changed.
    pub fn add_change(self, region_of_interest: Value) -> (r: Action)
        ensures
            r == (Action { changes: r.changes, ..self }),
            r.changes matches Some(c) && c@ == (match self.changes {
                Some(old_c) => old_c@.push(region_of_interest),
                None => seq![region_of_interest],
            }),
    {
        let mut this = self;
        let prior = this.changes.take();
        match prior {
            Some(mut c) => {
                c.push(region_of_interest);
                this.changes = Some(c);
            },
            None => {
                let mut c: Vec<Value> = Vec::new();
                c.push(region_of_interest);
                proof {
                    assert(c@ =~= seq![region_of_interest]);
                }
                this.changes = Some(c);
            },
        }
        this
    }

    /// Adds an ingredient identifier to the action: appends to the
    /// reserved parameter array when that parameter holds an array, else
    /// creates or replaces it as a one-element array. Never
    /// deduplicates.
    pub fn add_ingredient_id(&mut self, ingredient_id: &str)
        ensures
            *final(self) == (Action { parameters: final(self).parameters, ..*old(self) }),
            final(self).parameters matches Some(p) && vmap_model(p@) == map_put(
                params_model(old(self).parameters),
                "org.cai.ingredientIds"@,
                VData::Array(
                    match map_get(params_model(old(self).parameters), "org.cai.ingredientIds"@) {
                        Some(VData::Array(xs)) => xs.push(VData::Text(ingredient_id@)),
                        _ => seq![VData::Text(ingredient_id@)],
                    },
                ),
            ),
            wf_action(*old(self)) ==> wf_action(*final(self)),
    {
        let ghost old_model = params_model(old(self).parameters);
        let has_array = match self.get_parameter(CAI_INGREDIENT_IDS) {
            Some(v) => match v {
                Value::Array(_) => true,
                _ => false,
            },
            None => false,
        };
        if has_array {
            let mut params: Vec<(String, Value)> = match self.parameters.take() {
                Some(p) => p,
                None => Vec::new(),
            };
            let ghost old_params = params@;
            match find_key(&params, CAI_INGREDIENT_IDS) {
                Some(i) => {
                    let old_pair = params.remove(i);
                    match old_pair.1 {
                        Value::Array(mut ids) => {
                            let ghost old_ids = ids@;
                            ids.push(Value::Text(new_string(ingredient_id)));
                            proof {
                                crate::value::lemma_vseq_model_push(old_ids, ids@.last());
                                assert(ids@ =~= old_ids.push(ids@.last()));
                            }
                            params.insert(i, (old_pair.0, Value::Array(ids)));
                            proof {
                                crate::value::lemma_vmap_model_len(old_params);
                                assert forall|j: int| 0 <= j < i implies (#[trigger] vmap_model(
                                    old_params,
                                )[j]).0 != "org.cai.ingredientIds"@ by {
                                    crate::value::lemma_vmap_model_index(old_params, j);
                                }
                                crate::value::lemma_vmap_model_index(old_params, i as int);
                                lemma_map_get_at(
                                    vmap_model(old_params),
                                    "org.cai.ingredientIds"@,
                                    i as int,
                                );
                                lemma_map_put_at(
                                    vmap_model(old_params),
                                    "org.cai.ingredientIds"@,
                                    vmodel(params@[i as int].1),
                                    i as int,
                                );
                                assert(params@ =~= old_params.update(
                                    i as int,
                                    (old_pair.0, params@[i as int].1),
                                ));
                                lemma_vmap_model_update(
                                    old_params,
                                    i as int,
                                    old_pair.0,
                                    params@[i as int].1,
                                );
                                assert(vmap_model(old_params).update(
                                    i as int,
                                    (old_pair.0@, vmodel(params@[i as int].1)),
                                ) =~= vmap_model(old_params).update(
                                    i as int,
                                    (
                                        vmap_model(old_params)[i as int].0,
                                        vmodel(params@[i as int].1),
                                    ),
                                ));
                                if wf_action(*old(self)) {
                                    lemma_map_put_unique(
                                        old_model,
                                        "org.cai.ingredientIds"@,
                                        vmodel(params@[i as int].1),
                                    );
                                }
                            }
                            self.parameters = Some(params);
                        },
                        other => {
                            // cannot occur: the parameter was seen to hold an array
                            params.insert(i, (old_pair.0, other));
                            proof {
                                crate::value::lemma_vmap_model_len(old_params);
                                assert forall|j: int| 0 <= j < i implies (#[trigger] vmap_model(
                                    old_params,
                                )[j]).0 != "org.cai.ingredientIds"@ by {
                                    crate::value::lemma_vmap_model_index(old_params, j);
                                }
                                crate::value::lemma_vmap_model_index(old_params, i as int);
                                lemma_map_get_at(
                                    vmap_model(old_params),
                                    "org.cai.ingredientIds"@,
                                    i as int,
                                );
                            }
                            self.parameters = Some(params);
                        },
                    }
                },
                None => {
                    proof {
                        crate::value::lemma_vmap_model_len(old_params);
                        assert forall|j: int| 0 <= j < vmap_model(old_params).len() implies (
                        #[trigger] vmap_model(old_params)[j]).0 != "org.cai.ingredientIds"@ by {
                            crate::value::lemma_vmap_model_index(old_params, j);
                        }
                        lemma_map_get_none(vmap_model(old_params), "org.cai.ingredientIds"@);
                    }
                    self.parameters = Some(params);
                },
            }
        } else {
            let mut ids: Vec<Value> = Vec::new();
            ids.push(Value::Text(new_string(ingredient_id)));
            proof {
                crate::value::lemma_vseq_model_push(Seq::empty(), ids@[0]);
                assert(ids@ =~= Seq::<Value>::empty().push(ids@[0]));
                assert(vseq_model(Seq::<Value>::empty()) =~= Seq::<VData>::empty());
                assert(vseq_model(ids@) =~= seq![VData::Text(ingredient_id@)]);
            }
            self.put_parameter(CAI_INGREDIENT_IDS, Value::Array(ids));
        }
    }

    /// The ingredient identifiers this action references: the reserved
    /// parameter when it holds an array of strings; absent when that
    /// parameter is malformed — not an array, or an array with a
    /// non-text element; else the deprecated instance identifier
    /// wrapped in a one-element list.
    #[verifier::loop_isolation(false)]
    pub fn ingredient_ids(&self) -> (r: Option<Vec<String>>)
        ensures
            match r {
                Some(ids) => spec_ingredient_ids(*self) matches Some(m) && strs_view(ids@) == m,
                None => spec_ingredient_ids(*self) is None,
            },
    {
        match self.get_parameter(CAI_INGREDIENT_IDS) {
            Some(v) => match v {
                Value::Array(xs) => {
                    let mut out: Vec<String> = Vec::new();
                    let mut i: usize = 0;
                    while i < xs.len()
                        invariant
                            i <= xs@.len(),
                            texts_exact(vseq_model(xs@).take(i as int)) == Some(strs_view(out@)),
                        decreases xs@.len() - i,
                    {
                        proof {
                            crate::value::lemma_vseq_model_len(xs@);
                            crate::value::lemma_vseq_model_index(xs@, i as int);
                            lemma_texts_exact_take(vseq_model(xs@), i as int);
                        }
                        match &xs[i] {
                            Value::Text(s) => {
                                let copy = new_string(s.as_str());
                                out.push(copy);
                                proof {
                                    assert(strs_view(out@) =~= strs_view(
                                        out@.drop_last().push(out@.last()),
                                    ));
                                    assert(strs_view(out@.drop_last()).push(out@.last()@)
                                        =~= strs_view(out@));
                                }
                            },
                            _ => {
                                // a non-text element makes the whole
                                // parameter malformed: read as absent
                                proof {
                                    crate::value::lemma_vseq_model_len(xs@);
                                    lemma_texts_exact_elem_none(vseq_model(xs@), i as int);
                                }
                                return None;
                            },
                        }
                        i = i + 1;
                    }
                    proof {
                        crate::value::lemma_vseq_model_len(xs@);
                        assert(vseq_model(xs@).take(xs@.len() as int) =~= vseq_model(xs@));
                    }
                    Some(out)
                },
                _ => None,
            },
            None => {
                match &self.instance_id {
                    Some(id) => {
                        let mut out: Vec<String> = Vec::new();
                        out.push(new_string(id.as_str()));
                        proof {
                            assert(strs_view(out@) =~= seq![id@]);
                        }
                        Some(out)
                    },
                    None => None,
                }
            },
        }
    }
}

/// One more element extends the string reading by that element when it
/// is text, and spoils it otherwise.
pub proof fn lemma_texts_exact_take(xs: Seq<VData>, i: int)
    requires
        0 <= i < xs.len(),
    ensures
        texts_exact(xs.take(i + 1)) == (match (texts_exact(xs.take(i)), xs[i]) {
            (Some(r), VData::Text(t)) => Some(r.push(t)),
            _ => None,
        }),
{
    lemma_texts_exact_snoc(xs.take(i), xs[i]);
    assert(xs.take(i + 1) =~= xs.take(i).push(xs[i]));
}

/// String reading distributes over appending one element.
pub proof fn lemma_texts_exact_snoc(xs: Seq<VData>, x: VData)
    ensures
        texts_exact(xs.push(x)) == (match (texts_exact(xs), x) {
            (Some(r), VData::Text(t)) => Some(r.push(t)),
            _ => None,
        }),
    decreases xs.len(),
{
    let s = xs.push(x);
    if xs.len() == 0 {
        assert(s[0] == x);
        assert(s.drop_first() =~= Seq::<VData>::empty());
        assert(texts_exact(s.drop_first()) == Some(Seq::<Seq<char>>::empty()));
        match (texts_exact(xs), x) {
            (Some(r), VData::Text(t)) => {
                assert(seq![t] + Seq::<Seq<char>>::empty() =~= r.push(t));
            },
            _ => {},
        }
    } else {
        assert(s[0] == xs[0]);
        assert(s.drop_first() =~= xs.drop_first().push(x));
        lemma_texts_exact_snoc(xs.drop_first(), x);
        match (texts_exact(xs), x) {
            (Some(r), VData::Text(t)) => {
                assert(texts_exact(s) matches Some(q) && q =~= r.push(t));
            },
            _ => {},
        }
    }
}

/// A non-text element anywhere spoils the whole string reading.
pub proof fn lemma_texts_exact_elem_none(xs: Seq<VData>, i: int)
    requires
        0 <= i < xs.len(),
        !(xs[i] is Text),
    ensures
        texts_exact(xs) is None,
    decreases i,
{
    if i == 0 {
    } else {
        assert(xs.drop_first()[i - 1] == xs[i]);
        lemma_texts_exact_elem_none(xs.drop_first(), i - 1);
    }
}


/// An Actions assertion: the ordered event history of an asset, with
/// shared software-agent descriptors, action templates and
/// assertion-level metadata. Order is meaningful and append-only during
/// authoring.
#[derive(Debug, PartialEq)]
pub struct Actions {
    /// The ordered list of actions.
    pub actions: Vec<Action>,
    /// Shared software or hardware descriptors, referenced by index from
    /// individual actions.
    pub software_agents: Option<Vec<ClaimGeneratorInfo>>,
    /// If present and true, no actions took place beyond those listed.
    pub all_actions_included: Option<bool>,
    /// Templates of defaults per action label.
    pub templates: Option<Vec<ActionTemplate>>,
    /// Additional information about the assertion.
    pub metadata: Option<Metadata>,
}

/// Well-formedness of an Actions assertion: every action is well-formed,
/// and so are all template parameter maps.
pub open spec fn wf_actions(x: Actions) -> bool {
    &&& (forall|i: int| 0 <= i < x.actions@.len() ==> wf_action(#[trigger] x.actions@[i]))
    &&& (match x.templates {
        Some(ts) => forall|i: int|
            0 <= i < ts@.len() ==> (match (#[trigger] ts@[i]).template_parameters {
                Some(p) => keys_unique(vmap_model(p@)),
                None => true,
            }),
        None => true,
    })
}

/// This action, and every related sub-action under it, carries a reason
/// wherever its label denotes a redaction.
pub open spec fn action_redaction_ok(a: Action) -> bool
    decreases a,
{
    &&& (a.action@ == "c2pa.redacted"@ ==> a.reason is Some)
    &&& (match a.related {
        Some(r) => forall|j: int| 0 <= j < r@.len() ==> action_redaction_ok(#[trigger] r@[j]),
        None => true,
    })
}

/// Every action of the assertion that denotes a redaction carries a
/// reason, related sub-actions included.
pub open spec fn redactions_have_reasons(x: Actions) -> bool {
    forall|i: int| 0 <= i < x.actions@.len() ==> action_redaction_ok(#[trigger] x.actions@[i])
}

impl Actions {
    /// Label prefix for an Actions assertion.
    pub const LABEL: &'static str = crate::labels::ACTIONS;

    /// The schema version this library writes.
    pub fn version() -> (r: Option<usize>)
        ensures
            r == Some(2usize),
    {
        Some(2)
    }

    /// Creates a new, empty Actions assertion.
    pub fn new() -> (r: Actions)
        ensures
            r.actions@.len() == 0,
            r.software_agents is None,
            r.all_actions_included is None,
            r.templates is None,
            r.metadata is None,
            wf_actions(r),
    {
        Actions {
            actions: Vec::new(),
            software_agents: None,
            all_actions_included: None,
            templates: None,
            metadata: None,
        }
    }

    /// The full label of this assertion, with its version suffix.
    pub fn label(&self) -> (r: &str)
        ensures
            r@ == "c2pa.actions.v2"@,
    {
        "c2pa.actions.v2"
    }

    /// Returns the shared agent descriptor at a 0-based index, if the
    /// list holds one there.
    pub fn software_agent(&self, index: usize) -> (r: Option<&ClaimGeneratorInfo>)
        ensures
            match r {
                Some(a) => self.software_agents matches Some(sa) && index < sa@.len() && *a
                    == sa@[index as int],
                None => match self.software_agents {
                    Some(sa) => index >= sa@.len(),
                    None => true,
                },
            },
    {
        match &self.software_agents {
            Some(sa) => {
                if index < sa.len() {
                    Some(&sa[index])
                } else {
                    None
                }
            },
            None => None,
        }
    }

    /// Returns the shared agent list, if present.
    pub fn software_agents(&self) -> (r: &Option<Vec<ClaimGeneratorInfo>>)
        ensures
            r == self.software_agents,
    {
        &self.software_agents
    }

    /// Returns the template list, if present.
    pub fn templates(&self) -> (r: &Option<Vec<ActionTemplate>>)
        ensures
            r == self.templates,
    {
        &self.templates
    }

    /// Adds a descriptor to the shared agent list, creating the list if
    /// absent. Callers keep any `software_agent_index` on individual
    /// actions consistent with this list; indices are not validated at
    /// write time.
    pub fn add_software_agent(&mut self, cgi: ClaimGeneratorInfo)
        ensures
            *final(self) == (Actions { software_agents: final(self).software_agents, ..*old(self) }),
            final(self).software_agents matches Some(sa) && sa@ == (match old(
                self,
            ).software_agents {
                Some(old_sa) => old_sa@.push(cgi),
                None => seq![cgi],
            }),
    {
        let prior = self.software_agents.take();
        match prior {
            Some(mut sa) => {
                sa.push(cgi);
                self.software_agents = Some(sa);
            },
            None => {
                let mut sa: Vec<ClaimGeneratorInfo> = Vec::new();
                sa.push(cgi);
                proof {
                    assert(sa@ =~= seq![sa@[0]]);
                }
                self.software_agents = Some(sa);
            },
        }
    }

    /// Returns the list of actions.
    pub fn actions(&self) -> (r: &Vec<Action>)
        ensures
            r == self.actions,
    {
        &self.actions
    }

    /// Returns the assertion's metadata, if it exists.
    pub fn metadata(&self) -> (r: Option<&Metadata>)
        ensures
            match r {
                Some(m) => self.metadata matches Some(x) && *m == x,
                None => self.metadata is None,
            },
    {
        self.metadata.as_ref()
    }

    /// Replaces the action at `index`; the index must be in bounds, or
    /// the value is returned unchanged with an out-of-bounds error.
    pub fn update_action(self, index: usize, action: Action) -> (r: Result<Actions, (Actions, Error)>)
        ensures
            match r {
                Ok(x) => index < self.actions@.len() && x == (Actions { actions: x.actions, ..self })
                    && x.actions@ == self.actions@.update(index as int, action),
                Err(p) => index >= self.actions@.len() && p.0 == self && p.1 == Error::OutOfBounds,
            },
    {
        let mut this = self;
        if index < this.actions.len() {
            let ghost old_actions = this.actions@;
            let _ = this.actions.remove(index);
            this.actions.insert(index, action);
            proof {
                assert(this.actions@ =~= old_actions.update(index as int, action));
            }
            Ok(this)
        } else {
            Err((this, Error::OutOfBounds))
        }
    }

    /// Adds an action to this assertion's list of actions.
    pub fn add_action(self, action: Action) -> (r: Actions)
        ensures
            r == (Actions { actions: r.actions, ..self }),
            r.actions@ == self.actions@.push(action),
    {
        let mut this = self;
        this.actions.push(action);
        this
    }

    /// Returns the mutable list of actions.
    pub fn actions_mut(&mut self) -> (r: &mut Vec<Action>)
        ensures
            *r == old(self).actions,
            *final(self) == (Actions { actions: *final(r), ..*old(self) }),
    {
        &mut self.actions
    }

    /// Sets metadata for the assertion.
    pub fn add_metadata(self, metadata: Metadata) -> (r: Actions)
        ensures
            r == (Actions { metadata: r.metadata, ..self }),
            r.metadata == Some(metadata),
    {
        Actions { metadata: Some(metadata), ..self }
    }
}


/// Appending ingredient identifiers accumulates them in call order: on
/// an action with no prior reserved parameter and no deprecated
/// instance identifier, one append yields exactly that identifier, and
/// a second append yields exactly the two identifiers in call order,
/// never deduplicated. The premises are exactly what
/// [`Action::add_ingredient_id`] ensures of each call.
pub proof fn lemma_ingredient_ids_two_calls(
    a0: Action,
    a1: Action,
    a2: Action,
    id1: Seq<char>,
    id2: Seq<char>,
)
    requires
        map_get(params_model(a0.parameters), "org.cai.ingredientIds"@) is None,
        a0.instance_id is None,
        a1 == (Action { parameters: a1.parameters, ..a0 }),
        a1.parameters matches Some(p1) && vmap_model(p1@) == map_put(
            params_model(a0.parameters),
            "org.cai.ingredientIds"@,
            VData::Array(
                match map_get(params_model(a0.parameters), "org.cai.ingredientIds"@) {
                    Some(VData::Array(xs)) => xs.push(VData::Text(id1)),
                    _ => seq![VData::Text(id1)],
                },
            ),
        ),
        a2 == (Action { parameters: a2.parameters, ..a1 }),
        a2.parameters matches Some(p2) && vmap_model(p2@) == map_put(
            params_model(a1.parameters),
            "org.cai.ingredientIds"@,
            VData::Array(
                match map_get(params_model(a1.parameters), "org.cai.ingredientIds"@) {
                    Some(VData::Array(xs)) => xs.push(VData::Text(id2)),
                    _ => seq![VData::Text(id2)],
                },
            ),
        ),
    ensures
        spec_ingredient_ids(a1) == Some(seq![id1]),
        spec_ingredient_ids(a2) == Some(seq![id1, id2]),
{
    let key = "org.cai.ingredientIds"@;
    let p1 = a1.parameters.unwrap();
    let one = VData::Array(seq![VData::Text(id1)]);
    lemma_map_put_get(params_model(a0.parameters), key, one);
    assert(map_get(params_model(a1.parameters), key) == Some(one));
    lemma_texts_exact_snoc(Seq::empty(), VData::Text(id1));
    assert(texts_exact(Seq::<VData>::empty()) == Some(Seq::<Seq<char>>::empty()));
    assert(seq![VData::Text(id1)] =~= Seq::<VData>::empty().push(VData::Text(id1)));
    assert(Seq::<Seq<char>>::empty().push(id1) =~= seq![id1]);
    assert(texts_exact(seq![VData::Text(id1)]) == Some(seq![id1]));
    let two = VData::Array(seq![VData::Text(id1)].push(VData::Text(id2)));
    lemma_map_put_get(params_model(a1.parameters), key, two);
    assert(map_get(params_model(a2.parameters), key) == Some(two));
    lemma_texts_exact_snoc(seq![VData::Text(id1)], VData::Text(id2));
    assert(seq![id1].push(id2) =~= seq![id1, id2]);
    assert(texts_exact(seq![VData::Text(id1)].push(VData::Text(id2))) == Some(seq![id1, id2]));
}


impl Default for Action {
    /// An action with an empty label and every optional field absent.
    fn default() -> (r: Action)
        ensures
            r.action@ == Seq::<char>::empty(),
            r.when is None,
            r.software_agent is None,
            r.software_agent_index is None,
            r.changed is None,
            r.changes is None,
            r.instance_id is None,
            r.parameters is None,
            r.actors is None,
            r.source_type is None,
            r.related is None,
            r.reason is None,
            r.description is None,
            wf_action(r),
    {
        proof {
            reveal_strlit("");
        }
        Action::new("")
    }
}

impl Default for Actions {
    /// An empty assertion, as [`Actions::new`] builds.
    fn default() -> (r: Actions)
        ensures
            r.actions@.len() == 0,
            r.software_agents is None,
            r.all_actions_included is None,
            r.templates is None,
            r.metadata is None,
            wf_actions(r),
    {
        Actions::new()
    }
}

} // verus!
