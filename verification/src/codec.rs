//! The wire form of the Actions assertion: how the typed model maps onto
//! structured values, and the encoder and decoder that realize it.
//!
//! The encoder writes each record as a map whose keys appear in a fixed
//! alphabetical order, omitting absent optional fields entirely, so that
//! re-encoding the same logical content always yields identical bytes.
//! The decoder looks fields up by key, ignores unknown keys, and reads
//! the deprecated instance identifier that older producers wrote, which
//! the encoder never emits.

use vstd::prelude::*;
use crate::value::{Value, VData, vmodel, vseq_model, vmap_model, map_get, keys_unique};
use crate::actions::{
    Action, Actions, ActionTemplate, ClaimGeneratorInfo, Metadata, SoftwareAgent, wf_action,
    wf_actions,
};
use crate::Error;

verus! {

/// Appends an entry when the optional value is present.
pub open spec fn add_opt(
    es: Seq<(Seq<char>, VData)>,
    k: Seq<char>,
    o: Option<VData>,
) -> Seq<(Seq<char>, VData)> {
    match o {
        Some(v) => es.push((k, v)),
        None => es,
    }
}

/// The wire form of an optional text field.
pub open spec fn otext(o: Option<String>) -> Option<VData> {
    match o {
        Some(s) => Some(VData::Text(s@)),
        None => None,
    }
}

/// The wire form of an optional index field.
pub open spec fn ouint(o: Option<usize>) -> Option<VData> {
    match o {
        Some(n) => Some(VData::UInt(n as u64)),
        None => None,
    }
}

/// The wire form of an optional boolean field.
pub open spec fn obool(o: Option<bool>) -> Option<VData> {
    match o {
        Some(b) => Some(VData::Bool(b)),
        None => None,
    }
}

/// The wire form of an optional structured-value field.
pub open spec fn oval(o: Option<Value>) -> Option<VData> {
    match o {
        Some(v) => Some(vmodel(v)),
        None => None,
    }
}

/// The wire form of an optional list of structured values.
pub open spec fn oarr(o: Option<Vec<Value>>) -> Option<VData> {
    match o {
        Some(v) => Some(VData::Array(vseq_model(v@))),
        None => None,
    }
}

/// The wire form of an optional parameter map.
pub open spec fn odict(o: Option<Vec<(String, Value)>>) -> Option<VData> {
    match o {
        Some(v) => Some(VData::Dict(vmap_model(v@))),
        None => None,
    }
}

/// The wire form of a software-agent descriptor: a bare name is text, a
/// structured descriptor is a map.
pub open spec fn agent_wire(a: SoftwareAgent) -> VData {
    match a {
        SoftwareAgent::String(s) => VData::Text(s@),
        SoftwareAgent::ClaimGeneratorInfo(c) => VData::Dict(vmap_model(c.entries@)),
    }
}

/// The wire form of an optional software-agent field.
pub open spec fn oagent(o: Option<SoftwareAgent>) -> Option<VData> {
    match o {
        Some(a) => Some(agent_wire(a)),
        None => None,
    }
}

/// The wire form of an optional structured-descriptor field.
pub open spec fn ocgi(o: Option<ClaimGeneratorInfo>) -> Option<VData> {
    match o {
        Some(c) => Some(VData::Dict(vmap_model(c.entries@))),
        None => None,
    }
}

/// The wire form of an optional metadata field.
pub open spec fn ometa(o: Option<Metadata>) -> Option<VData> {
    match o {
        Some(m) => Some(VData::Dict(vmap_model(m.entries@))),
        None => None,
    }
}

/// The wire form of an optional related-actions field. When `keep_inst`
/// is set the deprecated instance identifier is kept; the encoder never
/// keeps it.
pub open spec fn orelated(o: Option<Vec<Action>>, keep_inst: bool) -> Option<VData>
    decreases o, 3int,
{
    match o {
        Some(r) => Some(VData::Array(actions_seq_wire(r@, keep_inst))),
        None => None,
    }
}

/// The wire forms of a sequence of actions.
pub open spec fn actions_seq_wire(s: Seq<Action>, keep_inst: bool) -> Seq<VData>
    decreases s, 2int,
{
    if s.len() == 0 {
        Seq::empty()
    } else {
        seq![action_wire(s[0], keep_inst)] + actions_seq_wire(s.drop_first(), keep_inst)
    }
}

/// The wire form of one action: a map in fixed key order.
pub open spec fn action_wire(a: Action, keep_inst: bool) -> VData
    decreases a, 1int,
{
    VData::Dict(action_entries(a, keep_inst))
}

/// The entries of one action's wire map, in fixed alphabetical key
/// order, each optional field omitted when absent.
pub open spec fn action_entries(a: Action, keep_inst: bool) -> Seq<(Seq<char>, VData)>
    decreases a, 0int,
{
    add_opt(
        add_opt(
            add_opt(
                add_opt(
                    add_opt(
                        add_opt(
                            add_opt(
                                add_opt(
                                    add_opt(
                                        add_opt(
                                            add_opt(
                                                add_opt(
                                                    seq![
                                                        ("action"@, VData::Text(a.action@)),
                                                    ],
                                                    "actors"@,
                                                    oarr(a.actors),
                                                ),
                                                "changed"@,
                                                otext(a.changed),
                                            ),
                                            "changes"@,
                                            oarr(a.changes),
                                        ),
                                        "description"@,
                                        otext(a.description),
                                    ),
                                    "digitalSourceType"@,
                                    otext(a.source_type),
                                ),
                                "instanceId"@,
                                if keep_inst {
                                    otext(a.instance_id)
                                } else {
                                    None
                                },
                            ),
                            "parameters"@,
                            odict(a.parameters),
                        ),
                        "reason"@,
                        otext(a.reason),
                    ),
                    "related"@,
                    orelated(a.related, keep_inst),
                ),
                "softwareAgent"@,
                oagent(a.software_agent),
            ),
            "softwareAgentIndex"@,
            ouint(a.software_agent_index),
        ),
        "when"@,
        otext(a.when),
    )
}

/// The wire form of one action template.
pub open spec fn template_wire(t: ActionTemplate) -> VData {
    VData::Dict(template_entries(t))
}

/// The entries of one template's wire map, in fixed alphabetical key
/// order.
pub open spec fn template_entries(t: ActionTemplate) -> Seq<(Seq<char>, VData)> {
    add_opt(
        add_opt(
            add_opt(
                add_opt(
                    add_opt(
                        add_opt(
                            seq![("action"@, VData::Text(t.action@))],
                            "description"@,
                            otext(t.description),
                        ),
                        "digitalSourceType"@,
                        otext(t.source_type),
                    ),
                    "icon"@,
                    oval(t.icon),
                ),
                "softwareAgent"@,
                ocgi(t.software_agent),
            ),
            "softwareAgentIndex"@,
            ouint(t.software_agent_index),
        ),
        "templateParameters"@,
        odict(t.template_parameters),
    )
}

/// The wire forms of a sequence of structured descriptors.
pub open spec fn cgis_wire(s: Seq<ClaimGeneratorInfo>) -> Seq<VData>
    decreases s.len(),
{
    if s.len() == 0 {
        Seq::empty()
    } else {
        seq![VData::Dict(vmap_model(s[0].entries@))] + cgis_wire(s.drop_first())
    }
}

/// The wire forms of a sequence of templates.
pub open spec fn templates_wire(s: Seq<ActionTemplate>) -> Seq<VData>
    decreases s.len(),
{
    if s.len() == 0 {
        Seq::empty()
    } else {
        seq![template_wire(s[0])] + templates_wire(s.drop_first())
    }
}

/// The wire form of an optional shared-agents list.
pub open spec fn ocgis(o: Option<Vec<ClaimGeneratorInfo>>) -> Option<VData> {
    match o {
        Some(v) => Some(VData::Array(cgis_wire(v@))),
        None => None,
    }
}

/// The wire form of an optional templates list.
pub open spec fn otemplates(o: Option<Vec<ActionTemplate>>) -> Option<VData> {
    match o {
        Some(v) => Some(VData::Array(templates_wire(v@))),
        None => None,
    }
}

/// The wire form of a whole Actions assertion.
pub open spec fn actions_wire(x: Actions, keep_inst: bool) -> VData {
    VData::Dict(actions_entries(x, keep_inst))
}

/// The entries of the assertion's wire map, in fixed alphabetical key
/// order.
pub open spec fn actions_entries(x: Actions, keep_inst: bool) -> Seq<(Seq<char>, VData)> {
    add_opt(
        add_opt(
            add_opt(
                add_opt(
                    seq![("actions"@, VData::Array(actions_seq_wire(x.actions@, keep_inst)))],
                    "allActionsIncluded"@,
                    obool(x.all_actions_included),
                ),
                "metadata"@,
                ometa(x.metadata),
            ),
            "softwareAgents"@,
            ocgis(x.software_agents),
        ),
        "templates"@,
        otemplates(x.templates),
    )
}

/// Looking up after one append: an earlier hit wins, the appended entry
/// answers its own key, everything else stays absent.
pub broadcast proof fn lemma_map_get_push(
    es: Seq<(Seq<char>, VData)>,
    k: Seq<char>,
    v: VData,
    k2: Seq<char>,
)
    ensures
        #[trigger] map_get(es.push((k, v)), k2) == (match map_get(es, k2) {
            Some(x) => Some(x),
            None => if k2 == k {
                Some(v)
            } else {
                None
            },
        }),
    decreases es.len(),
{
    let s = es.push((k, v));
    if es.len() == 0 {
        assert(s[0] == (k, v));
        assert(s.drop_first() =~= Seq::<(Seq<char>, VData)>::empty());
        assert(map_get(s.drop_first(), k2) is None);
    } else {
        assert(s[0] == es[0]);
        assert(s.drop_first() =~= es.drop_first().push((k, v)));
        lemma_map_get_push(es.drop_first(), k, v, k2);
    }
}

/// The single starting entry answers its own key and no other.
pub proof fn lemma_map_get_single(k: Seq<char>, v: VData, k2: Seq<char>)
    ensures
        map_get(seq![(k, v)], k2) == (if k2 == k {
            Some(v)
        } else {
            None
        }),
{
    assert(seq![(k, v)].drop_first() =~= Seq::<(Seq<char>, VData)>::empty());
    assert(map_get(seq![(k, v)].drop_first(), k2) is None);
}



/// Field lookups on an action's wire map recover exactly the fields;
/// the legacy instance-identifier spellings are never written.
#[verifier::rlimit(100)]
#[verifier::spinoff_prover]
pub proof fn lemma_action_entries_get(a: Action, keep_inst: bool)
    ensures
        map_get(action_entries(a, keep_inst), "action"@) == Some(VData::Text(a.action@)),
        map_get(action_entries(a, keep_inst), "actors"@) == oarr(a.actors),
        map_get(action_entries(a, keep_inst), "changed"@) == otext(a.changed),
        map_get(action_entries(a, keep_inst), "changes"@) == oarr(a.changes),
        map_get(action_entries(a, keep_inst), "description"@) == otext(a.description),
        map_get(action_entries(a, keep_inst), "digitalSourceType"@) == otext(a.source_type),
        map_get(action_entries(a, keep_inst), "instanceId"@) == (if keep_inst {
            otext(a.instance_id)
        } else {
            None
        }),
        map_get(action_entries(a, keep_inst), "instanceID"@) == None::<VData>,
        map_get(action_entries(a, keep_inst), "instance_id"@) == None::<VData>,
        map_get(action_entries(a, keep_inst), "parameters"@) == odict(a.parameters),
        map_get(action_entries(a, keep_inst), "reason"@) == otext(a.reason),
        map_get(action_entries(a, keep_inst), "related"@) == orelated(a.related, keep_inst),
        map_get(action_entries(a, keep_inst), "softwareAgent"@) == oagent(a.software_agent),
        map_get(action_entries(a, keep_inst), "softwareAgentIndex"@) == ouint(
            a.software_agent_index,
        ),
        map_get(action_entries(a, keep_inst), "when"@) == otext(a.when),
{
    broadcast use lemma_map_get_push;

    // the wire keys are distinct literals; spelling them out lets every
    // lookup resolve through the chain of appends below
    reveal_strlit("action");
    reveal_strlit("actors");
    reveal_strlit("changed");
    reveal_strlit("changes");
    reveal_strlit("description");
    reveal_strlit("digitalSourceType");
    reveal_strlit("instanceId");
    reveal_strlit("parameters");
    reveal_strlit("reason");
    reveal_strlit("related");
    reveal_strlit("softwareAgent");
    reveal_strlit("softwareAgentIndex");
    reveal_strlit("when");
    reveal_strlit("instanceID");
    reveal_strlit("instance_id");
    assert(("action"@)[3] != ("actors"@)[3]);
    assert("action"@ != "actors"@);
    assert("action"@.len() != "changed"@.len());
    assert("action"@ != "changed"@);
    assert("action"@.len() != "changes"@.len());
    assert("action"@ != "changes"@);
    assert("action"@.len() != "description"@.len());
    assert("action"@ != "description"@);
    assert("action"@.len() != "digitalSourceType"@.len());
    assert("action"@ != "digitalSourceType"@);
    assert("action"@.len() != "instanceId"@.len());
    assert("action"@ != "instanceId"@);
    assert("action"@.len() != "parameters"@.len());
    assert("action"@ != "parameters"@);
    assert(("action"@)[0] != ("reason"@)[0]);
    assert("action"@ != "reason"@);
    assert("action"@.len() != "related"@.len());
    assert("action"@ != "related"@);
    assert("action"@.len() != "softwareAgent"@.len());
    assert("action"@ != "softwareAgent"@);
    assert("action"@.len() != "softwareAgentIndex"@.len());
    assert("action"@ != "softwareAgentIndex"@);
    assert("action"@.len() != "when"@.len());
    assert("action"@ != "when"@);
    assert("action"@.len() != "instanceID"@.len());
    assert("action"@ != "instanceID"@);
    assert("action"@.len() != "instance_id"@.len());
    assert("action"@ != "instance_id"@);
    assert("actors"@.len() != "changed"@.len());
    assert("actors"@ != "changed"@);
    assert("actors"@.len() != "changes"@.len());
    assert("actors"@ != "changes"@);
    assert("actors"@.len() != "description"@.len());
    assert("actors"@ != "description"@);
    assert("actors"@.len() != "digitalSourceType"@.len());
    assert("actors"@ != "digitalSourceType"@);
    assert("actors"@.len() != "instanceId"@.len());
    assert("actors"@ != "instanceId"@);
    assert("actors"@.len() != "parameters"@.len());
    assert("actors"@ != "parameters"@);
    assert(("actors"@)[0] != ("reason"@)[0]);
    assert("actors"@ != "reason"@);
    assert("actors"@.len() != "related"@.len());
    assert("actors"@ != "related"@);
    assert("actors"@.len() != "softwareAgent"@.len());
    assert("actors"@ != "softwareAgent"@);
    assert("actors"@.len() != "softwareAgentIndex"@.len());
    assert("actors"@ != "softwareAgentIndex"@);
    assert("actors"@.len() != "when"@.len());
    assert("actors"@ != "when"@);
    assert("actors"@.len() != "instanceID"@.len());
    assert("actors"@ != "instanceID"@);
    assert("actors"@.len() != "instance_id"@.len());
    assert("actors"@ != "instance_id"@);
    assert(("changed"@)[6] != ("changes"@)[6]);
    assert("changed"@ != "changes"@);
    assert("changed"@.len() != "description"@.len());
    assert("changed"@ != "description"@);
    assert("changed"@.len() != "digitalSourceType"@.len());
    assert("changed"@ != "digitalSourceType"@);
    assert("changed"@.len() != "instanceId"@.len());
    assert("changed"@ != "instanceId"@);
    assert("changed"@.len() != "parameters"@.len());
    assert("changed"@ != "parameters"@);
    assert("changed"@.len() != "reason"@.len());
    assert("changed"@ != "reason"@);
    assert(("changed"@)[0] != ("related"@)[0]);
    assert("changed"@ != "related"@);
    assert("changed"@.len() != "softwareAgent"@.len());
    assert("changed"@ != "softwareAgent"@);
    assert("changed"@.len() != "softwareAgentIndex"@.len());
    assert("changed"@ != "softwareAgentIndex"@);
    assert("changed"@.len() != "when"@.len());
    assert("changed"@ != "when"@);
    assert("changed"@.len() != "instanceID"@.len());
    assert("changed"@ != "instanceID"@);
    assert("changed"@.len() != "instance_id"@.len());
    assert("changed"@ != "instance_id"@);
    assert("changes"@.len() != "description"@.len());
    assert("changes"@ != "description"@);
    assert("changes"@.len() != "digitalSourceType"@.len());
    assert("changes"@ != "digitalSourceType"@);
    assert("changes"@.len() != "instanceId"@.len());
    assert("changes"@ != "instanceId"@);
    assert("changes"@.len() != "parameters"@.len());
    assert("changes"@ != "parameters"@);
    assert("changes"@.len() != "reason"@.len());
    assert("changes"@ != "reason"@);
    assert(("changes"@)[0] != ("related"@)[0]);
    assert("changes"@ != "related"@);
    assert("changes"@.len() != "softwareAgent"@.len());
    assert("changes"@ != "softwareAgent"@);
    assert("changes"@.len() != "softwareAgentIndex"@.len());
    assert("changes"@ != "softwareAgentIndex"@);
    assert("changes"@.len() != "when"@.len());
    assert("changes"@ != "when"@);
    assert("changes"@.len() != "instanceID"@.len());
    assert("changes"@ != "instanceID"@);
    assert("changes"@.len() != "instance_id"@.len());
    assert("changes"@ != "instance_id"@);
    assert("description"@.len() != "digitalSourceType"@.len());
    assert("description"@ != "digitalSourceType"@);
    assert("description"@.len() != "instanceId"@.len());
    assert("description"@ != "instanceId"@);
    assert("description"@.len() != "parameters"@.len());
    assert("description"@ != "parameters"@);
    assert("description"@.len() != "reason"@.len());
    assert("description"@ != "reason"@);
    assert("description"@.len() != "related"@.len());
    assert("description"@ != "related"@);
    assert("description"@.len() != "softwareAgent"@.len());
    assert("description"@ != "softwareAgent"@);
    assert("description"@.len() != "softwareAgentIndex"@.len());
    assert("description"@ != "softwareAgentIndex"@);
    assert("description"@.len() != "when"@.len());
    assert("description"@ != "when"@);
    assert("description"@.len() != "instanceID"@.len());
    assert("description"@ != "instanceID"@);
    assert(("description"@)[0] != ("instance_id"@)[0]);
    assert("description"@ != "instance_id"@);
    assert("digitalSourceType"@.len() != "instanceId"@.len());
    assert("digitalSourceType"@ != "instanceId"@);
    assert("digitalSourceType"@.len() != "parameters"@.len());
    assert("digitalSourceType"@ != "parameters"@);
    assert("digitalSourceType"@.len() != "reason"@.len());
    assert("digitalSourceType"@ != "reason"@);
    assert("digitalSourceType"@.len() != "related"@.len());
    assert("digitalSourceType"@ != "related"@);
    assert("digitalSourceType"@.len() != "softwareAgent"@.len());
    assert("digitalSourceType"@ != "softwareAgent"@);
    assert("digitalSourceType"@.len() != "softwareAgentIndex"@.len());
    assert("digitalSourceType"@ != "softwareAgentIndex"@);
    assert("digitalSourceType"@.len() != "when"@.len());
    assert("digitalSourceType"@ != "when"@);
    assert("digitalSourceType"@.len() != "instanceID"@.len());
    assert("digitalSourceType"@ != "instanceID"@);
    assert("digitalSourceType"@.len() != "instance_id"@.len());
    assert("digitalSourceType"@ != "instance_id"@);
    assert(("instanceId"@)[0] != ("parameters"@)[0]);
    assert("instanceId"@ != "parameters"@);
    assert("instanceId"@.len() != "reason"@.len());
    assert("instanceId"@ != "reason"@);
    assert("instanceId"@.len() != "related"@.len());
    assert("instanceId"@ != "related"@);
    assert("instanceId"@.len() != "softwareAgent"@.len());
    assert("instanceId"@ != "softwareAgent"@);
    assert("instanceId"@.len() != "softwareAgentIndex"@.len());
    assert("instanceId"@ != "softwareAgentIndex"@);
    assert("instanceId"@.len() != "when"@.len());
    assert("instanceId"@ != "when"@);
    assert(("instanceId"@)[9] != ("instanceID"@)[9]);
    assert("instanceId"@ != "instanceID"@);
    assert("instanceId"@.len() != "instance_id"@.len());
    assert("instanceId"@ != "instance_id"@);
    assert("parameters"@.len() != "reason"@.len());
    assert("parameters"@ != "reason"@);
    assert("parameters"@.len() != "related"@.len());
    assert("parameters"@ != "related"@);
    assert("parameters"@.len() != "softwareAgent"@.len());
    assert("parameters"@ != "softwareAgent"@);
    assert("parameters"@.len() != "softwareAgentIndex"@.len());
    assert("parameters"@ != "softwareAgentIndex"@);
    assert("parameters"@.len() != "when"@.len());
    assert("parameters"@ != "when"@);
    assert(("parameters"@)[0] != ("instanceID"@)[0]);
    assert("parameters"@ != "instanceID"@);
    assert("parameters"@.len() != "instance_id"@.len());
    assert("parameters"@ != "instance_id"@);
    assert("reason"@.len() != "related"@.len());
    assert("reason"@ != "related"@);
    assert("reason"@.len() != "softwareAgent"@.len());
    assert("reason"@ != "softwareAgent"@);
    assert("reason"@.len() != "softwareAgentIndex"@.len());
    assert("reason"@ != "softwareAgentIndex"@);
    assert("reason"@.len() != "when"@.len());
    assert("reason"@ != "when"@);
    assert("reason"@.len() != "instanceID"@.len());
    assert("reason"@ != "instanceID"@);
    assert("reason"@.len() != "instance_id"@.len());
    assert("reason"@ != "instance_id"@);
    assert("related"@.len() != "softwareAgent"@.len());
    assert("related"@ != "softwareAgent"@);
    assert("related"@.len() != "softwareAgentIndex"@.len());
    assert("related"@ != "softwareAgentIndex"@);
    assert("related"@.len() != "when"@.len());
    assert("related"@ != "when"@);
    assert("related"@.len() != "instanceID"@.len());
    assert("related"@ != "instanceID"@);
    assert("related"@.len() != "instance_id"@.len());
    assert("related"@ != "instance_id"@);
    assert("softwareAgent"@.len() != "softwareAgentIndex"@.len());
    assert("softwareAgent"@ != "softwareAgentIndex"@);
    assert("softwareAgent"@.len() != "when"@.len());
    assert("softwareAgent"@ != "when"@);
    assert("softwareAgent"@.len() != "instanceID"@.len());
    assert("softwareAgent"@ != "instanceID"@);
    assert("softwareAgent"@.len() != "instance_id"@.len());
    assert("softwareAgent"@ != "instance_id"@);
    assert("softwareAgentIndex"@.len() != "when"@.len());
    assert("softwareAgentIndex"@ != "when"@);
    assert("softwareAgentIndex"@.len() != "instanceID"@.len());
    assert("softwareAgentIndex"@ != "instanceID"@);
    assert("softwareAgentIndex"@.len() != "instance_id"@.len());
    assert("softwareAgentIndex"@ != "instance_id"@);
    assert("when"@.len() != "instanceID"@.len());
    assert("when"@ != "instanceID"@);
    assert("when"@.len() != "instance_id"@.len());
    assert("when"@ != "instance_id"@);
    assert("instanceID"@.len() != "instance_id"@.len());
    assert("instanceID"@ != "instance_id"@);
    let e0: Seq<(Seq<char>, VData)> = seq![("action"@, VData::Text(a.action@))];
    let e1 = add_opt(e0, "actors"@, oarr(a.actors));
    let e2 = add_opt(e1, "changed"@, otext(a.changed));
    let e3 = add_opt(e2, "changes"@, oarr(a.changes));
    let e4 = add_opt(e3, "description"@, otext(a.description));
    let e5 = add_opt(e4, "digitalSourceType"@, otext(a.source_type));
    let e6 = add_opt(e5, "instanceId"@, (if keep_inst { otext(a.instance_id) } else { None }));
    let e7 = add_opt(e6, "parameters"@, odict(a.parameters));
    let e8 = add_opt(e7, "reason"@, otext(a.reason));
    let e9 = add_opt(e8, "related"@, orelated(a.related, keep_inst));
    let e10 = add_opt(e9, "softwareAgent"@, oagent(a.software_agent));
    let e11 = add_opt(e10, "softwareAgentIndex"@, ouint(a.software_agent_index));
    let e12 = add_opt(e11, "when"@, otext(a.when));
    assert(action_entries(a, keep_inst) == e12);
    lemma_map_get_single("action"@, VData::Text(a.action@), "action"@);
    assert(map_get(e0, "action"@) == Some(VData::Text(a.action@)));
    lemma_map_get_single("action"@, VData::Text(a.action@), "actors"@);
    assert(map_get(e0, "actors"@) == None::<VData>);
    lemma_map_get_single("action"@, VData::Text(a.action@), "changed"@);
    assert(map_get(e0, "changed"@) == None::<VData>);
    lemma_map_get_single("action"@, VData::Text(a.action@), "changes"@);
    assert(map_get(e0, "changes"@) == None::<VData>);
    lemma_map_get_single("action"@, VData::Text(a.action@), "description"@);
    assert(map_get(e0, "description"@) == None::<VData>);
    lemma_map_get_single("action"@, VData::Text(a.action@), "digitalSourceType"@);
    assert(map_get(e0, "digitalSourceType"@) == None::<VData>);
    lemma_map_get_single("action"@, VData::Text(a.action@), "instanceId"@);
    assert(map_get(e0, "instanceId"@) == None::<VData>);
    lemma_map_get_single("action"@, VData::Text(a.action@), "parameters"@);
    assert(map_get(e0, "parameters"@) == None::<VData>);
    lemma_map_get_single("action"@, VData::Text(a.action@), "reason"@);
    assert(map_get(e0, "reason"@) == None::<VData>);
    lemma_map_get_single("action"@, VData::Text(a.action@), "related"@);
    assert(map_get(e0, "related"@) == None::<VData>);
    lemma_map_get_single("action"@, VData::Text(a.action@), "softwareAgent"@);
    assert(map_get(e0, "softwareAgent"@) == None::<VData>);
    lemma_map_get_single("action"@, VData::Text(a.action@), "softwareAgentIndex"@);
    assert(map_get(e0, "softwareAgentIndex"@) == None::<VData>);
    lemma_map_get_single("action"@, VData::Text(a.action@), "when"@);
    assert(map_get(e0, "when"@) == None::<VData>);
    lemma_map_get_single("action"@, VData::Text(a.action@), "instanceID"@);
    assert(map_get(e0, "instanceID"@) == None::<VData>);
    lemma_map_get_single("action"@, VData::Text(a.action@), "instance_id"@);
    assert(map_get(e0, "instance_id"@) == None::<VData>);
    assert(map_get(e1, "action"@) == Some(VData::Text(a.action@)));
    assert(map_get(e1, "actors"@) == oarr(a.actors));
    assert(map_get(e1, "changed"@) == None::<VData>);
    assert(map_get(e1, "changes"@) == None::<VData>);
    assert(map_get(e1, "description"@) == None::<VData>);
    assert(map_get(e1, "digitalSourceType"@) == None::<VData>);
    assert(map_get(e1, "instanceId"@) == None::<VData>);
    assert(map_get(e1, "parameters"@) == None::<VData>);
    assert(map_get(e1, "reason"@) == None::<VData>);
    assert(map_get(e1, "related"@) == None::<VData>);
    assert(map_get(e1, "softwareAgent"@) == None::<VData>);
    assert(map_get(e1, "softwareAgentIndex"@) == None::<VData>);
    assert(map_get(e1, "when"@) == None::<VData>);
    assert(map_get(e1, "instanceID"@) == None::<VData>);
    assert(map_get(e1, "instance_id"@) == None::<VData>);
    assert(map_get(e2, "action"@) == Some(VData::Text(a.action@)));
    assert(map_get(e2, "actors"@) == oarr(a.actors));
    assert(map_get(e2, "changed"@) == otext(a.changed));
    assert(map_get(e2, "changes"@) == None::<VData>);
    assert(map_get(e2, "description"@) == None::<VData>);
    assert(map_get(e2, "digitalSourceType"@) == None::<VData>);
    assert(map_get(e2, "instanceId"@) == None::<VData>);
    assert(map_get(e2, "parameters"@) == None::<VData>);
    assert(map_get(e2, "reason"@) == None::<VData>);
    assert(map_get(e2, "related"@) == None::<VData>);
    assert(map_get(e2, "softwareAgent"@) == None::<VData>);
    assert(map_get(e2, "softwareAgentIndex"@) == None::<VData>);
    assert(map_get(e2, "when"@) == None::<VData>);
    assert(map_get(e2, "instanceID"@) == None::<VData>);
    assert(map_get(e2, "instance_id"@) == None::<VData>);
    assert(map_get(e3, "action"@) == Some(VData::Text(a.action@)));
    assert(map_get(e3, "actors"@) == oarr(a.actors));
    assert(map_get(e3, "changed"@) == otext(a.changed));
    assert(map_get(e3, "changes"@) == oarr(a.changes));
    assert(map_get(e3, "description"@) == None::<VData>);
    assert(map_get(e3, "digitalSourceType"@) == None::<VData>);
    assert(map_get(e3, "instanceId"@) == None::<VData>);
    assert(map_get(e3, "parameters"@) == None::<VData>);
    assert(map_get(e3, "reason"@) == None::<VData>);
    assert(map_get(e3, "related"@) == None::<VData>);
    assert(map_get(e3, "softwareAgent"@) == None::<VData>);
    assert(map_get(e3, "softwareAgentIndex"@) == None::<VData>);
    assert(map_get(e3, "when"@) == None::<VData>);
    assert(map_get(e3, "instanceID"@) == None::<VData>);
    assert(map_get(e3, "instance_id"@) == None::<VData>);
    assert(map_get(e4, "action"@) == Some(VData::Text(a.action@)));
    assert(map_get(e4, "actors"@) == oarr(a.actors));
    assert(map_get(e4, "changed"@) == otext(a.changed));
    assert(map_get(e4, "changes"@) == oarr(a.changes));
    assert(map_get(e4, "description"@) == otext(a.description));
    assert(map_get(e4, "digitalSourceType"@) == None::<VData>);
    assert(map_get(e4, "instanceId"@) == None::<VData>);
    assert(map_get(e4, "parameters"@) == None::<VData>);
    assert(map_get(e4, "reason"@) == None::<VData>);
    assert(map_get(e4, "related"@) == None::<VData>);
    assert(map_get(e4, "softwareAgent"@) == None::<VData>);
    assert(map_get(e4, "softwareAgentIndex"@) == None::<VData>);
    assert(map_get(e4, "when"@) == None::<VData>);
    assert(map_get(e4, "instanceID"@) == None::<VData>);
    assert(map_get(e4, "instance_id"@) == None::<VData>);
    assert(map_get(e5, "action"@) == Some(VData::Text(a.action@)));
    assert(map_get(e5, "actors"@) == oarr(a.actors));
    assert(map_get(e5, "changed"@) == otext(a.changed));
    assert(map_get(e5, "changes"@) == oarr(a.changes));
    assert(map_get(e5, "description"@) == otext(a.description));
    assert(map_get(e5, "digitalSourceType"@) == otext(a.source_type));
    assert(map_get(e5, "instanceId"@) == None::<VData>);
    assert(map_get(e5, "parameters"@) == None::<VData>);
    assert(map_get(e5, "reason"@) == None::<VData>);
    assert(map_get(e5, "related"@) == None::<VData>);
    assert(map_get(e5, "softwareAgent"@) == None::<VData>);
    assert(map_get(e5, "softwareAgentIndex"@) == None::<VData>);
    assert(map_get(e5, "when"@) == None::<VData>);
    assert(map_get(e5, "instanceID"@) == None::<VData>);
    assert(map_get(e5, "instance_id"@) == None::<VData>);
    assert(map_get(e6, "action"@) == Some(VData::Text(a.action@)));
    assert(map_get(e6, "actors"@) == oarr(a.actors));
    assert(map_get(e6, "changed"@) == otext(a.changed));
    assert(map_get(e6, "changes"@) == oarr(a.changes));
    assert(map_get(e6, "description"@) == otext(a.description));
    assert(map_get(e6, "digitalSourceType"@) == otext(a.source_type));
    assert(map_get(e6, "instanceId"@) == (if keep_inst { otext(a.instance_id) } else { None }));
    assert(map_get(e6, "parameters"@) == None::<VData>);
    assert(map_get(e6, "reason"@) == None::<VData>);
    assert(map_get(e6, "related"@) == None::<VData>);
    assert(map_get(e6, "softwareAgent"@) == None::<VData>);
    assert(map_get(e6, "softwareAgentIndex"@) == None::<VData>);
    assert(map_get(e6, "when"@) == None::<VData>);
    assert(map_get(e6, "instanceID"@) == None::<VData>);
    assert(map_get(e6, "instance_id"@) == None::<VData>);
    assert(map_get(e7, "action"@) == Some(VData::Text(a.action@)));
    assert(map_get(e7, "actors"@) == oarr(a.actors));
    assert(map_get(e7, "changed"@) == otext(a.changed));
    assert(map_get(e7, "changes"@) == oarr(a.changes));
    assert(map_get(e7, "description"@) == otext(a.description));
    assert(map_get(e7, "digitalSourceType"@) == otext(a.source_type));
    assert(map_get(e7, "instanceId"@) == (if keep_inst { otext(a.instance_id) } else { None }));
    assert(map_get(e7, "parameters"@) == odict(a.parameters));
    assert(map_get(e7, "reason"@) == None::<VData>);
    assert(map_get(e7, "related"@) == None::<VData>);
    assert(map_get(e7, "softwareAgent"@) == None::<VData>);
    assert(map_get(e7, "softwareAgentIndex"@) == None::<VData>);
    assert(map_get(e7, "when"@) == None::<VData>);
    assert(map_get(e7, "instanceID"@) == None::<VData>);
    assert(map_get(e7, "instance_id"@) == None::<VData>);
    assert(map_get(e8, "action"@) == Some(VData::Text(a.action@)));
    assert(map_get(e8, "actors"@) == oarr(a.actors));
    assert(map_get(e8, "changed"@) == otext(a.changed));
    assert(map_get(e8, "changes"@) == oarr(a.changes));
    assert(map_get(e8, "description"@) == otext(a.description));
    assert(map_get(e8, "digitalSourceType"@) == otext(a.source_type));
    assert(map_get(e8, "instanceId"@) == (if keep_inst { otext(a.instance_id) } else { None }));
    assert(map_get(e8, "parameters"@) == odict(a.parameters));
    assert(map_get(e8, "reason"@) == otext(a.reason));
    assert(map_get(e8, "related"@) == None::<VData>);
    assert(map_get(e8, "softwareAgent"@) == None::<VData>);
    assert(map_get(e8, "softwareAgentIndex"@) == None::<VData>);
    assert(map_get(e8, "when"@) == None::<VData>);
    assert(map_get(e8, "instanceID"@) == None::<VData>);
    assert(map_get(e8, "instance_id"@) == None::<VData>);
    assert(map_get(e9, "action"@) == Some(VData::Text(a.action@)));
    assert(map_get(e9, "actors"@) == oarr(a.actors));
    assert(map_get(e9, "changed"@) == otext(a.changed));
    assert(map_get(e9, "changes"@) == oarr(a.changes));
    assert(map_get(e9, "description"@) == otext(a.description));
    assert(map_get(e9, "digitalSourceType"@) == otext(a.source_type));
    assert(map_get(e9, "instanceId"@) == (if keep_inst { otext(a.instance_id) } else { None }));
    assert(map_get(e9, "parameters"@) == odict(a.parameters));
    assert(map_get(e9, "reason"@) == otext(a.reason));
    assert(map_get(e9, "related"@) == orelated(a.related, keep_inst));
    assert(map_get(e9, "softwareAgent"@) == None::<VData>);
    assert(map_get(e9, "softwareAgentIndex"@) == None::<VData>);
    assert(map_get(e9, "when"@) == None::<VData>);
    assert(map_get(e9, "instanceID"@) == None::<VData>);
    assert(map_get(e9, "instance_id"@) == None::<VData>);
    assert(map_get(e10, "action"@) == Some(VData::Text(a.action@)));
    assert(map_get(e10, "actors"@) == oarr(a.actors));
    assert(map_get(e10, "changed"@) == otext(a.changed));
    assert(map_get(e10, "changes"@) == oarr(a.changes));
    assert(map_get(e10, "description"@) == otext(a.description));
    assert(map_get(e10, "digitalSourceType"@) == otext(a.source_type));
    assert(map_get(e10, "instanceId"@) == (if keep_inst { otext(a.instance_id) } else { None }));
    assert(map_get(e10, "parameters"@) == odict(a.parameters));
    assert(map_get(e10, "reason"@) == otext(a.reason));
    assert(map_get(e10, "related"@) == orelated(a.related, keep_inst));
    assert(map_get(e10, "softwareAgent"@) == oagent(a.software_agent));
    assert(map_get(e10, "softwareAgentIndex"@) == None::<VData>);
    assert(map_get(e10, "when"@) == None::<VData>);
    assert(map_get(e10, "instanceID"@) == None::<VData>);
    assert(map_get(e10, "instance_id"@) == None::<VData>);
    assert(map_get(e11, "action"@) == Some(VData::Text(a.action@)));
    assert(map_get(e11, "actors"@) == oarr(a.actors));
    assert(map_get(e11, "changed"@) == otext(a.changed));
    assert(map_get(e11, "changes"@) == oarr(a.changes));
    assert(map_get(e11, "description"@) == otext(a.description));
    assert(map_get(e11, "digitalSourceType"@) == otext(a.source_type));
    assert(map_get(e11, "instanceId"@) == (if keep_inst { otext(a.instance_id) } else { None }));
    assert(map_get(e11, "parameters"@) == odict(a.parameters));
    assert(map_get(e11, "reason"@) == otext(a.reason));
    assert(map_get(e11, "related"@) == orelated(a.related, keep_inst));
    assert(map_get(e11, "softwareAgent"@) == oagent(a.software_agent));
    assert(map_get(e11, "softwareAgentIndex"@) == ouint(a.software_agent_index));
    assert(map_get(e11, "when"@) == None::<VData>);
    assert(map_get(e11, "instanceID"@) == None::<VData>);
    assert(map_get(e11, "instance_id"@) == None::<VData>);
    assert(map_get(e12, "action"@) == Some(VData::Text(a.action@)));
    assert(map_get(e12, "actors"@) == oarr(a.actors));
    assert(map_get(e12, "changed"@) == otext(a.changed));
    assert(map_get(e12, "changes"@) == oarr(a.changes));
    assert(map_get(e12, "description"@) == otext(a.description));
    assert(map_get(e12, "digitalSourceType"@) == otext(a.source_type));
    assert(map_get(e12, "instanceId"@) == (if keep_inst { otext(a.instance_id) } else { None }));
    assert(map_get(e12, "parameters"@) == odict(a.parameters));
    assert(map_get(e12, "reason"@) == otext(a.reason));
    assert(map_get(e12, "related"@) == orelated(a.related, keep_inst));
    assert(map_get(e12, "softwareAgent"@) == oagent(a.software_agent));
    assert(map_get(e12, "softwareAgentIndex"@) == ouint(a.software_agent_index));
    assert(map_get(e12, "when"@) == otext(a.when));
    assert(map_get(e12, "instanceID"@) == None::<VData>);
    assert(map_get(e12, "instance_id"@) == None::<VData>);
}

/// Field lookups on a template's wire map recover exactly the fields.
#[verifier::rlimit(100)]
pub proof fn lemma_template_entries_get(t: ActionTemplate)
    ensures
        map_get(template_entries(t), "action"@) == Some(VData::Text(t.action@)),
        map_get(template_entries(t), "description"@) == otext(t.description),
        map_get(template_entries(t), "digitalSourceType"@) == otext(t.source_type),
        map_get(template_entries(t), "icon"@) == oval(t.icon),
        map_get(template_entries(t), "softwareAgent"@) == ocgi(t.software_agent),
        map_get(template_entries(t), "softwareAgentIndex"@) == ouint(t.software_agent_index),
        map_get(template_entries(t), "templateParameters"@) == odict(t.template_parameters),
{
    broadcast use lemma_map_get_push;

    // the wire keys are distinct literals; spelling them out lets every
    // lookup resolve through the chain of appends below
    reveal_strlit("action");
    reveal_strlit("description");
    reveal_strlit("digitalSourceType");
    reveal_strlit("icon");
    reveal_strlit("softwareAgent");
    reveal_strlit("softwareAgentIndex");
    reveal_strlit("templateParameters");
    assert("action"@.len() != "description"@.len());
    assert("action"@ != "description"@);
    assert("action"@.len() != "digitalSourceType"@.len());
    assert("action"@ != "digitalSourceType"@);
    assert("action"@.len() != "icon"@.len());
    assert("action"@ != "icon"@);
    assert("action"@.len() != "softwareAgent"@.len());
    assert("action"@ != "softwareAgent"@);
    assert("action"@.len() != "softwareAgentIndex"@.len());
    assert("action"@ != "softwareAgentIndex"@);
    assert("action"@.len() != "templateParameters"@.len());
    assert("action"@ != "templateParameters"@);
    assert("description"@.len() != "digitalSourceType"@.len());
    assert("description"@ != "digitalSourceType"@);
    assert("description"@.len() != "icon"@.len());
    assert("description"@ != "icon"@);
    assert("description"@.len() != "softwareAgent"@.len());
    assert("description"@ != "softwareAgent"@);
    assert("description"@.len() != "softwareAgentIndex"@.len());
    assert("description"@ != "softwareAgentIndex"@);
    assert("description"@.len() != "templateParameters"@.len());
    assert("description"@ != "templateParameters"@);
    assert("digitalSourceType"@.len() != "icon"@.len());
    assert("digitalSourceType"@ != "icon"@);
    assert("digitalSourceType"@.len() != "softwareAgent"@.len());
    assert("digitalSourceType"@ != "softwareAgent"@);
    assert("digitalSourceType"@.len() != "softwareAgentIndex"@.len());
    assert("digitalSourceType"@ != "softwareAgentIndex"@);
    assert("digitalSourceType"@.len() != "templateParameters"@.len());
    assert("digitalSourceType"@ != "templateParameters"@);
    assert("icon"@.len() != "softwareAgent"@.len());
    assert("icon"@ != "softwareAgent"@);
    assert("icon"@.len() != "softwareAgentIndex"@.len());
    assert("icon"@ != "softwareAgentIndex"@);
    assert("icon"@.len() != "templateParameters"@.len());
    assert("icon"@ != "templateParameters"@);
    assert("softwareAgent"@.len() != "softwareAgentIndex"@.len());
    assert("softwareAgent"@ != "softwareAgentIndex"@);
    assert("softwareAgent"@.len() != "templateParameters"@.len());
    assert("softwareAgent"@ != "templateParameters"@);
    assert(("softwareAgentIndex"@)[0] != ("templateParameters"@)[0]);
    assert("softwareAgentIndex"@ != "templateParameters"@);
    let e0: Seq<(Seq<char>, VData)> = seq![("action"@, VData::Text(t.action@))];
    let e1 = add_opt(e0, "description"@, otext(t.description));
    let e2 = add_opt(e1, "digitalSourceType"@, otext(t.source_type));
    let e3 = add_opt(e2, "icon"@, oval(t.icon));
    let e4 = add_opt(e3, "softwareAgent"@, ocgi(t.software_agent));
    let e5 = add_opt(e4, "softwareAgentIndex"@, ouint(t.software_agent_index));
    let e6 = add_opt(e5, "templateParameters"@, odict(t.template_parameters));
    assert(template_entries(t) == e6);
    lemma_map_get_single("action"@, VData::Text(t.action@), "action"@);
    assert(map_get(e0, "action"@) == Some(VData::Text(t.action@)));
    lemma_map_get_single("action"@, VData::Text(t.action@), "description"@);
    assert(map_get(e0, "description"@) == None::<VData>);
    lemma_map_get_single("action"@, VData::Text(t.action@), "digitalSourceType"@);
    assert(map_get(e0, "digitalSourceType"@) == None::<VData>);
    lemma_map_get_single("action"@, VData::Text(t.action@), "icon"@);
    assert(map_get(e0, "icon"@) == None::<VData>);
    lemma_map_get_single("action"@, VData::Text(t.action@), "softwareAgent"@);
    assert(map_get(e0, "softwareAgent"@) == None::<VData>);
    lemma_map_get_single("action"@, VData::Text(t.action@), "softwareAgentIndex"@);
    assert(map_get(e0, "softwareAgentIndex"@) == None::<VData>);
    lemma_map_get_single("action"@, VData::Text(t.action@), "templateParameters"@);
    assert(map_get(e0, "templateParameters"@) == None::<VData>);
    assert(map_get(e1, "action"@) == Some(VData::Text(t.action@)));
    assert(map_get(e1, "description"@) == otext(t.description));
    assert(map_get(e1, "digitalSourceType"@) == None::<VData>);
    assert(map_get(e1, "icon"@) == None::<VData>);
    assert(map_get(e1, "softwareAgent"@) == None::<VData>);
    assert(map_get(e1, "softwareAgentIndex"@) == None::<VData>);
    assert(map_get(e1, "templateParameters"@) == None::<VData>);
    assert(map_get(e2, "action"@) == Some(VData::Text(t.action@)));
    assert(map_get(e2, "description"@) == otext(t.description));
    assert(map_get(e2, "digitalSourceType"@) == otext(t.source_type));
    assert(map_get(e2, "icon"@) == None::<VData>);
    assert(map_get(e2, "softwareAgent"@) == None::<VData>);
    assert(map_get(e2, "softwareAgentIndex"@) == None::<VData>);
    assert(map_get(e2, "templateParameters"@) == None::<VData>);
    assert(map_get(e3, "action"@) == Some(VData::Text(t.action@)));
    assert(map_get(e3, "description"@) == otext(t.description));
    assert(map_get(e3, "digitalSourceType"@) == otext(t.source_type));
    assert(map_get(e3, "icon"@) == oval(t.icon));
    assert(map_get(e3, "softwareAgent"@) == None::<VData>);
    assert(map_get(e3, "softwareAgentIndex"@) == None::<VData>);
    assert(map_get(e3, "templateParameters"@) == None::<VData>);
    assert(map_get(e4, "action"@) == Some(VData::Text(t.action@)));
    assert(map_get(e4, "description"@) == otext(t.description));
    assert(map_get(e4, "digitalSourceType"@) == otext(t.source_type));
    assert(map_get(e4, "icon"@) == oval(t.icon));
    assert(map_get(e4, "softwareAgent"@) == ocgi(t.software_agent));
    assert(map_get(e4, "softwareAgentIndex"@) == None::<VData>);
    assert(map_get(e4, "templateParameters"@) == None::<VData>);
    assert(map_get(e5, "action"@) == Some(VData::Text(t.action@)));
    assert(map_get(e5, "description"@) == otext(t.description));
    assert(map_get(e5, "digitalSourceType"@) == otext(t.source_type));
    assert(map_get(e5, "icon"@) == oval(t.icon));
    assert(map_get(e5, "softwareAgent"@) == ocgi(t.software_agent));
    assert(map_get(e5, "softwareAgentIndex"@) == ouint(t.software_agent_index));
    assert(map_get(e5, "templateParameters"@) == None::<VData>);
    assert(map_get(e6, "action"@) == Some(VData::Text(t.action@)));
    assert(map_get(e6, "description"@) == otext(t.description));
    assert(map_get(e6, "digitalSourceType"@) == otext(t.source_type));
    assert(map_get(e6, "icon"@) == oval(t.icon));
    assert(map_get(e6, "softwareAgent"@) == ocgi(t.software_agent));
    assert(map_get(e6, "softwareAgentIndex"@) == ouint(t.software_agent_index));
    assert(map_get(e6, "templateParameters"@) == odict(t.template_parameters));
}


/// Field lookups on the assertion's wire map recover exactly the fields.
#[verifier::rlimit(100)]
pub proof fn lemma_actions_entries_get(x: Actions, keep_inst: bool)
    ensures
        map_get(actions_entries(x, keep_inst), "actions"@) == Some(
            VData::Array(actions_seq_wire(x.actions@, keep_inst)),
        ),
        map_get(actions_entries(x, keep_inst), "allActionsIncluded"@) == obool(
            x.all_actions_included,
        ),
        map_get(actions_entries(x, keep_inst), "metadata"@) == ometa(x.metadata),
        map_get(actions_entries(x, keep_inst), "softwareAgents"@) == ocgis(x.software_agents),
        map_get(actions_entries(x, keep_inst), "templates"@) == otemplates(x.templates),
{
    broadcast use lemma_map_get_push;

    // the wire keys are distinct literals; spelling them out lets every
    // lookup resolve through the chain of appends below
    reveal_strlit("actions");
    reveal_strlit("allActionsIncluded");
    reveal_strlit("metadata");
    reveal_strlit("softwareAgents");
    reveal_strlit("templates");
    assert("actions"@.len() != "allActionsIncluded"@.len());
    assert("actions"@ != "allActionsIncluded"@);
    assert("actions"@.len() != "metadata"@.len());
    assert("actions"@ != "metadata"@);
    assert("actions"@.len() != "softwareAgents"@.len());
    assert("actions"@ != "softwareAgents"@);
    assert("actions"@.len() != "templates"@.len());
    assert("actions"@ != "templates"@);
    assert("allActionsIncluded"@.len() != "metadata"@.len());
    assert("allActionsIncluded"@ != "metadata"@);
    assert("allActionsIncluded"@.len() != "softwareAgents"@.len());
    assert("allActionsIncluded"@ != "softwareAgents"@);
    assert("allActionsIncluded"@.len() != "templates"@.len());
    assert("allActionsIncluded"@ != "templates"@);
    assert("metadata"@.len() != "softwareAgents"@.len());
    assert("metadata"@ != "softwareAgents"@);
    assert("metadata"@.len() != "templates"@.len());
    assert("metadata"@ != "templates"@);
    assert("softwareAgents"@.len() != "templates"@.len());
    assert("softwareAgents"@ != "templates"@);
    let e0: Seq<(Seq<char>, VData)> = seq![("actions"@, VData::Array(actions_seq_wire(x.actions@, keep_inst)))];
    let e1 = add_opt(e0, "allActionsIncluded"@, obool(x.all_actions_included));
    let e2 = add_opt(e1, "metadata"@, ometa(x.metadata));
    let e3 = add_opt(e2, "softwareAgents"@, ocgis(x.software_agents));
    let e4 = add_opt(e3, "templates"@, otemplates(x.templates));
    assert(actions_entries(x, keep_inst) == e4);
    lemma_map_get_single("actions"@, VData::Array(actions_seq_wire(x.actions@, keep_inst)), "actions"@);
    assert(map_get(e0, "actions"@) == Some(VData::Array(actions_seq_wire(x.actions@, keep_inst))));
    lemma_map_get_single("actions"@, VData::Array(actions_seq_wire(x.actions@, keep_inst)), "allActionsIncluded"@);
    assert(map_get(e0, "allActionsIncluded"@) == None::<VData>);
    lemma_map_get_single("actions"@, VData::Array(actions_seq_wire(x.actions@, keep_inst)), "metadata"@);
    assert(map_get(e0, "metadata"@) == None::<VData>);
    lemma_map_get_single("actions"@, VData::Array(actions_seq_wire(x.actions@, keep_inst)), "softwareAgents"@);
    assert(map_get(e0, "softwareAgents"@) == None::<VData>);
    lemma_map_get_single("actions"@, VData::Array(actions_seq_wire(x.actions@, keep_inst)), "templates"@);
    assert(map_get(e0, "templates"@) == None::<VData>);
    assert(map_get(e1, "actions"@) == Some(VData::Array(actions_seq_wire(x.actions@, keep_inst))));
    assert(map_get(e1, "allActionsIncluded"@) == obool(x.all_actions_included));
    assert(map_get(e1, "metadata"@) == None::<VData>);
    assert(map_get(e1, "softwareAgents"@) == None::<VData>);
    assert(map_get(e1, "templates"@) == None::<VData>);
    assert(map_get(e2, "actions"@) == Some(VData::Array(actions_seq_wire(x.actions@, keep_inst))));
    assert(map_get(e2, "allActionsIncluded"@) == obool(x.all_actions_included));
    assert(map_get(e2, "metadata"@) == ometa(x.metadata));
    assert(map_get(e2, "softwareAgents"@) == None::<VData>);
    assert(map_get(e2, "templates"@) == None::<VData>);
    assert(map_get(e3, "actions"@) == Some(VData::Array(actions_seq_wire(x.actions@, keep_inst))));
    assert(map_get(e3, "allActionsIncluded"@) == obool(x.all_actions_included));
    assert(map_get(e3, "metadata"@) == ometa(x.metadata));
    assert(map_get(e3, "softwareAgents"@) == ocgis(x.software_agents));
    assert(map_get(e3, "templates"@) == None::<VData>);
    assert(map_get(e4, "actions"@) == Some(VData::Array(actions_seq_wire(x.actions@, keep_inst))));
    assert(map_get(e4, "allActionsIncluded"@) == obool(x.all_actions_included));
    assert(map_get(e4, "metadata"@) == ometa(x.metadata));
    assert(map_get(e4, "softwareAgents"@) == ocgis(x.software_agents));
    assert(map_get(e4, "templates"@) == otemplates(x.templates));
}


/// The deprecated instance identifier a map carries, under whichever of
/// its accepted key spellings appears first: the canonical camel-case
/// form, the upper-case legacy form, then the snake-case field name.
pub open spec fn inst_lookup(es: Seq<(Seq<char>, VData)>) -> Option<VData> {
    match map_get(es, "instanceId"@) {
        Some(w) => Some(w),
        None => match map_get(es, "instanceID"@) {
            Some(w) => Some(w),
            None => map_get(es, "instance_id"@),
        },
    }
}

/// Whether the structured value `v` reads as the action `a`: every field
/// of `a` is exactly what a key lookup on `v` yields. Unknown keys in
/// `v` are not constrained; the decoder ignores them.
pub open spec fn action_from(v: VData, a: Action) -> bool
    decreases a,
{
    &&& v is Dict
    &&& map_get(v->Dict_0, "action"@) == Some(VData::Text(a.action@))
    &&& map_get(v->Dict_0, "actors"@) == oarr(a.actors)
    &&& map_get(v->Dict_0, "changed"@) == otext(a.changed)
    &&& map_get(v->Dict_0, "changes"@) == oarr(a.changes)
    &&& map_get(v->Dict_0, "description"@) == otext(a.description)
    &&& map_get(v->Dict_0, "digitalSourceType"@) == otext(a.source_type)
    &&& inst_lookup(v->Dict_0) == otext(a.instance_id)
    &&& map_get(v->Dict_0, "parameters"@) == odict(a.parameters)
    &&& map_get(v->Dict_0, "reason"@) == otext(a.reason)
    &&& (match (map_get(v->Dict_0, "related"@), a.related) {
        (None, None) => true,
        (Some(rv), Some(r)) => rv matches VData::Array(xs) && xs.len() == r@.len() && (forall|
            j: int,
        | 0 <= j < r@.len() ==> action_from(xs[j], #[trigger] r@[j])),
        _ => false,
    })
    &&& map_get(v->Dict_0, "softwareAgent"@) == oagent(a.software_agent)
    &&& map_get(v->Dict_0, "softwareAgentIndex"@) == ouint(a.software_agent_index)
    &&& map_get(v->Dict_0, "when"@) == otext(a.when)
}

/// Well-formedness of a template: its default-parameter keys are
/// unique.
pub open spec fn wf_template(t: ActionTemplate) -> bool {
    match t.template_parameters {
        Some(p) => keys_unique(vmap_model(p@)),
        None => true,
    }
}

/// Whether `v` reads as the template `t`.
pub open spec fn template_from(v: VData, t: ActionTemplate) -> bool {
    &&& v is Dict
    &&& map_get(v->Dict_0, "action"@) == Some(VData::Text(t.action@))
    &&& map_get(v->Dict_0, "description"@) == otext(t.description)
    &&& map_get(v->Dict_0, "digitalSourceType"@) == otext(t.source_type)
    &&& map_get(v->Dict_0, "icon"@) == oval(t.icon)
    &&& map_get(v->Dict_0, "softwareAgent"@) == ocgi(t.software_agent)
    &&& map_get(v->Dict_0, "softwareAgentIndex"@) == ouint(t.software_agent_index)
    &&& map_get(v->Dict_0, "templateParameters"@) == odict(t.template_parameters)
}

/// Whether `v` reads as the whole assertion `x`.
pub open spec fn actions_from(v: VData, x: Actions) -> bool {
    &&& v is Dict
    &&& (match map_get(v->Dict_0, "actions"@) {
        Some(av) => av matches VData::Array(xs) && xs.len() == x.actions@.len() && (forall|j: int|
            0 <= j < x.actions@.len() ==> action_from(xs[j], #[trigger] x.actions@[j])),
        None => false,
    })
    &&& map_get(v->Dict_0, "allActionsIncluded"@) == obool(x.all_actions_included)
    &&& map_get(v->Dict_0, "metadata"@) == ometa(x.metadata)
    &&& map_get(v->Dict_0, "softwareAgents"@) == ocgis(x.software_agents)
    &&& (match (map_get(v->Dict_0, "templates"@), x.templates) {
        (None, None) => true,
        (Some(tv), Some(ts)) => tv matches VData::Array(xs) && xs.len() == ts@.len() && (forall|
            j: int,
        | 0 <= j < ts@.len() ==> template_from(xs[j], #[trigger] ts@[j])),
        _ => false,
    })
}

/// Model equality of two actions: every field has the same mathematical
/// value, the deprecated instance identifier is absent from both, and
/// related actions agree pointwise.
pub open spec fn action_like(x: Action, y: Action) -> bool
    decreases x,
{
    &&& x.action@ == y.action@
    &&& otext(x.when) == otext(y.when)
    &&& oagent(x.software_agent) == oagent(y.software_agent)
    &&& ouint(x.software_agent_index) == ouint(y.software_agent_index)
    &&& otext(x.changed) == otext(y.changed)
    &&& oarr(x.changes) == oarr(y.changes)
    &&& x.instance_id is None
    &&& y.instance_id is None
    &&& odict(x.parameters) == odict(y.parameters)
    &&& oarr(x.actors) == oarr(y.actors)
    &&& otext(x.source_type) == otext(y.source_type)
    &&& (match (x.related, y.related) {
        (None, None) => true,
        (Some(rx), Some(ry)) => rx@.len() == ry@.len() && (forall|j: int|
            0 <= j < rx@.len() ==> action_like(#[trigger] rx@[j], ry@[j])),
        _ => false,
    })
    &&& otext(x.reason) == otext(y.reason)
    &&& otext(x.description) == otext(y.description)
}

/// Model equality of two templates.
pub open spec fn template_like(x: ActionTemplate, y: ActionTemplate) -> bool {
    &&& x.action@ == y.action@
    &&& ocgi(x.software_agent) == ocgi(y.software_agent)
    &&& ouint(x.software_agent_index) == ouint(y.software_agent_index)
    &&& otext(x.source_type) == otext(y.source_type)
    &&& oval(x.icon) == oval(y.icon)
    &&& otext(x.description) == otext(y.description)
    &&& odict(x.template_parameters) == odict(y.template_parameters)
}

/// Model equality of two assertions: actions agree pointwise, and so do
/// all the optional parts.
pub open spec fn actions_like(x: Actions, y: Actions) -> bool {
    &&& x.actions@.len() == y.actions@.len()
    &&& (forall|j: int| 0 <= j < x.actions@.len() ==> action_like(#[trigger] x.actions@[j], y.actions@[j]))
    &&& obool(x.all_actions_included) == obool(y.all_actions_included)
    &&& ometa(x.metadata) == ometa(y.metadata)
    &&& ocgis(x.software_agents) == ocgis(y.software_agents)
    &&& (match (x.templates, y.templates) {
        (None, None) => true,
        (Some(tx), Some(ty)) => tx@.len() == ty@.len() && (forall|j: int|
            0 <= j < tx@.len() ==> template_like(#[trigger] tx@[j], ty@[j])),
        _ => false,
    })
}

/// An action has no deprecated instance identifier, recursively through
/// its related actions.
pub open spec fn no_instance(a: Action) -> bool
    decreases a,
{
    &&& a.instance_id is None
    &&& (match a.related {
        Some(r) => forall|j: int| 0 <= j < r@.len() ==> no_instance(#[trigger] r@[j]),
        None => true,
    })
}

/// No action of the assertion carries a deprecated instance identifier.
pub open spec fn no_instances(x: Actions) -> bool {
    forall|j: int| 0 <= j < x.actions@.len() ==> no_instance(#[trigger] x.actions@[j])
}

pub proof fn lemma_actions_seq_wire_len(s: Seq<Action>, keep_inst: bool)
    ensures
        actions_seq_wire(s, keep_inst).len() == s.len(),
    decreases s,
{
    if s.len() != 0 {
        lemma_actions_seq_wire_len(s.drop_first(), keep_inst);
    }
}

pub proof fn lemma_actions_seq_wire_index(s: Seq<Action>, keep_inst: bool, i: int)
    requires
        0 <= i < s.len(),
    ensures
        actions_seq_wire(s, keep_inst)[i] == action_wire(s[i], keep_inst),
    decreases s,
{
    lemma_actions_seq_wire_len(s, keep_inst);
    if i != 0 {
        lemma_actions_seq_wire_index(s.drop_first(), keep_inst, i - 1);
    }
}

pub proof fn lemma_templates_wire_len(s: Seq<ActionTemplate>)
    ensures
        templates_wire(s).len() == s.len(),
    decreases s.len(),
{
    if s.len() != 0 {
        lemma_templates_wire_len(s.drop_first());
    }
}

pub proof fn lemma_templates_wire_index(s: Seq<ActionTemplate>, i: int)
    requires
        0 <= i < s.len(),
    ensures
        templates_wire(s)[i] == template_wire(s[i]),
    decreases s.len(),
{
    lemma_templates_wire_len(s);
    if i != 0 {
        lemma_templates_wire_index(s.drop_first(), i - 1);
    }
}

/// Whatever reads back from an action's own wire form is its model
/// equal: the wire form pins the action down.
pub proof fn lemma_action_from_wire(x: Action, y: Action)
    requires
        no_instance(x),
        action_from(action_wire(x, false), y),
    ensures
        action_like(x, y),
    decreases x,
{
    lemma_action_entries_get(x, false);
    let es = action_entries(x, false);
    match (x.related, y.related) {
        (Some(rx), Some(ry)) => {
            let xs = actions_seq_wire(rx@, false);
            lemma_actions_seq_wire_len(rx@, false);
            assert forall|j: int| 0 <= j < rx@.len() implies action_like(
                #[trigger] rx@[j],
                ry@[j],
            ) by {
                lemma_actions_seq_wire_index(rx@, false, j);
                lemma_action_from_wire(rx@[j], ry@[j]);
            }
        },
        _ => {},
    }
}

/// Whatever reads back from a template's own wire form is its model
/// equal.
pub proof fn lemma_template_from_wire(x: ActionTemplate, y: ActionTemplate)
    requires
        template_from(template_wire(x), y),
    ensures
        template_like(x, y),
{
    lemma_template_entries_get(x);
}

/// Whatever reads back from the assertion's own wire form is its model
/// equal: decoding an encoding can only yield an equal value.
pub proof fn lemma_actions_from_wire(x: Actions, y: Actions)
    requires
        no_instances(x),
        actions_from(actions_wire(x, false), y),
    ensures
        actions_like(x, y),
{
    lemma_actions_entries_get(x, false);
    let xs = actions_seq_wire(x.actions@, false);
    lemma_actions_seq_wire_len(x.actions@, false);
    assert forall|j: int| 0 <= j < x.actions@.len() implies action_like(
        #[trigger] x.actions@[j],
        y.actions@[j],
    ) by {
        lemma_actions_seq_wire_index(x.actions@, false, j);
        lemma_action_from_wire(x.actions@[j], y.actions@[j]);
    }
    match (x.templates, y.templates) {
        (Some(tx), Some(ty)) => {
            lemma_templates_wire_len(tx@);
            assert forall|j: int| 0 <= j < tx@.len() implies template_like(
                #[trigger] tx@[j],
                ty@[j],
            ) by {
                lemma_templates_wire_index(tx@, j);
                lemma_template_from_wire(tx@[j], ty@[j]);
            }
        },
        _ => {},
    }
}


pub proof fn lemma_cgis_wire_len(s: Seq<ClaimGeneratorInfo>)
    ensures
        cgis_wire(s).len() == s.len(),
    decreases s.len(),
{
    if s.len() != 0 {
        lemma_cgis_wire_len(s.drop_first());
    }
}

pub proof fn lemma_cgis_wire_index(s: Seq<ClaimGeneratorInfo>, i: int)
    requires
        0 <= i < s.len(),
    ensures
        cgis_wire(s)[i] == VData::Dict(vmap_model(s[i].entries@)),
    decreases s.len(),
{
    lemma_cgis_wire_len(s);
    if i != 0 {
        lemma_cgis_wire_index(s.drop_first(), i - 1);
    }
}

proof fn lemma_cgis_wire_snoc(s: Seq<ClaimGeneratorInfo>, e: ClaimGeneratorInfo)
    ensures
        cgis_wire(s.push(e)) == cgis_wire(s).push(VData::Dict(vmap_model(e.entries@))),
{
    lemma_cgis_wire_len(s);
    lemma_cgis_wire_len(s.push(e));
    assert forall|i: int| 0 <= i < s.len() + 1 implies cgis_wire(s.push(e))[i] == cgis_wire(
        s,
    ).push(VData::Dict(vmap_model(e.entries@)))[i] by {
        lemma_cgis_wire_index(s.push(e), i);
        if i < s.len() {
            lemma_cgis_wire_index(s, i);
            assert(s.push(e)[i] == s[i]);
        }
    }
    assert(cgis_wire(s.push(e)) =~= cgis_wire(s).push(VData::Dict(vmap_model(e.entries@))));
}

proof fn lemma_templates_wire_snoc(s: Seq<ActionTemplate>, e: ActionTemplate)
    ensures
        templates_wire(s.push(e)) == templates_wire(s).push(template_wire(e)),
{
    lemma_templates_wire_len(s);
    lemma_templates_wire_len(s.push(e));
    assert forall|i: int| 0 <= i < s.len() + 1 implies templates_wire(s.push(e))[i]
        == templates_wire(s).push(template_wire(e))[i] by {
        lemma_templates_wire_index(s.push(e), i);
        if i < s.len() {
            lemma_templates_wire_index(s, i);
            assert(s.push(e)[i] == s[i]);
        }
    }
    assert(templates_wire(s.push(e)) =~= templates_wire(s).push(template_wire(e)));
}

proof fn lemma_actions_seq_wire_snoc(s: Seq<Action>, e: Action, keep_inst: bool)
    ensures
        actions_seq_wire(s.push(e), keep_inst) == actions_seq_wire(s, keep_inst).push(
            action_wire(e, keep_inst),
        ),
{
    lemma_actions_seq_wire_len(s, keep_inst);
    lemma_actions_seq_wire_len(s.push(e), keep_inst);
    assert forall|i: int| 0 <= i < s.len() + 1 implies actions_seq_wire(s.push(e), keep_inst)[i]
        == actions_seq_wire(s, keep_inst).push(action_wire(e, keep_inst))[i] by {
        lemma_actions_seq_wire_index(s.push(e), keep_inst, i);
        if i < s.len() {
            lemma_actions_seq_wire_index(s, keep_inst, i);
            assert(s.push(e)[i] == s[i]);
        }
    }
    assert(actions_seq_wire(s.push(e), keep_inst) =~= actions_seq_wire(s, keep_inst).push(
        action_wire(e, keep_inst),
    ));
}

/// Deep copies of a list of values, model for model.
fn values_clone(vs: &Vec<Value>) -> (r: Vec<Value>)
    ensures
        vseq_model(r@) == vseq_model(vs@),
{
    let mut out: Vec<Value> = Vec::new();
    let mut i: usize = 0;
    while i < vs.len()
        invariant
            i <= vs@.len(),
            vseq_model(out@) == vseq_model(vs@.take(i as int)),
        decreases vs@.len() - i,
    {
        let c = vs[i].duplicate();
        proof {
            crate::value::lemma_vseq_model_push(out@, c);
            crate::value::lemma_vseq_model_push(vs@.take(i as int), vs@[i as int]);
            assert(vs@.take(i + 1) =~= vs@.take(i as int).push(vs@[i as int]));
        }
        out.push(c);
        i = i + 1;
    }
    proof {
        assert(vs@.take(vs@.len() as int) =~= vs@);
    }
    out
}

/// Deep copies of an entry list, model for model.
fn entries_clone(es: &Vec<(String, Value)>) -> (r: Vec<(String, Value)>)
    ensures
        vmap_model(r@) == vmap_model(es@),
{
    let mut out: Vec<(String, Value)> = Vec::new();
    let mut i: usize = 0;
    while i < es.len()
        invariant
            i <= es@.len(),
            vmap_model(out@) == vmap_model(es@.take(i as int)),
        decreases es@.len() - i,
    {
        let k = crate::value::copy_string(&es[i].0);
        let c = es[i].1.duplicate();
        proof {
            crate::value::lemma_vmap_model_push(out@, k, c);
            crate::value::lemma_vmap_model_push(
                es@.take(i as int),
                es@[i as int].0,
                es@[i as int].1,
            );
            assert(es@.take(i + 1) =~= es@.take(i as int).push(es@[i as int]));
        }
        out.push((k, c));
        i = i + 1;
    }
    proof {
        assert(es@.take(es@.len() as int) =~= es@);
    }
    out
}

/// The wire value of a software-agent descriptor.
fn agent_to_value(a: &SoftwareAgent) -> (r: Value)
    ensures
        vmodel(r) == agent_wire(*a),
{
    match a {
        SoftwareAgent::String(s) => Value::Text(crate::value::copy_string(s)),
        SoftwareAgent::ClaimGeneratorInfo(c) => Value::Dict(entries_clone(&c.entries)),
    }
}

/// The wire value of one action. The deprecated instance identifier is
/// never written.
#[verifier::loop_isolation(false)]
#[verifier::rlimit(100)]
#[verifier::spinoff_prover]
pub fn action_to_value(a: &Action) -> (r: Value)
    ensures
        vmodel(r) == action_wire(*a, false),
    decreases *a,
{
    let mut out: Vec<(String, Value)> = Vec::new();
    out.push((crate::actions::new_string("action"), Value::Text(crate::value::copy_string(&a.action))));
    let ghost e0 = seq![("action"@, VData::Text(a.action@))];
    proof {
        crate::value::lemma_vmap_model_push(Seq::empty(), out@[0].0, out@[0].1);
        assert(out@ =~= Seq::<(String, Value)>::empty().push(out@[0]));
        assert(vmap_model(Seq::<(String, Value)>::empty()) =~= Seq::<(Seq<char>, VData)>::empty());
        assert(vmap_model(out@) =~= e0);
    }
    let ov = match &a.actors {
        Some(x) => Some(Value::Array(values_clone(x))),
        None => None,
    };
    proof {
        assert(oval(ov) == oarr(a.actors));
    }
    push_opt_value(&mut out, "actors", ov);
    let ghost e1 = add_opt(e0, "actors"@, oarr(a.actors));
    let ov = match &a.changed {
        Some(x) => Some(Value::Text(crate::value::copy_string(x))),
        None => None,
    };
    proof {
        assert(oval(ov) == otext(a.changed));
    }
    push_opt_value(&mut out, "changed", ov);
    let ghost e2 = add_opt(e1, "changed"@, otext(a.changed));
    let ov = match &a.changes {
        Some(x) => Some(Value::Array(values_clone(x))),
        None => None,
    };
    proof {
        assert(oval(ov) == oarr(a.changes));
    }
    push_opt_value(&mut out, "changes", ov);
    let ghost e3 = add_opt(e2, "changes"@, oarr(a.changes));
    let ov = match &a.description {
        Some(x) => Some(Value::Text(crate::value::copy_string(x))),
        None => None,
    };
    proof {
        assert(oval(ov) == otext(a.description));
    }
    push_opt_value(&mut out, "description", ov);
    let ghost e4 = add_opt(e3, "description"@, otext(a.description));
    let ov = match &a.source_type {
        Some(x) => Some(Value::Text(crate::value::copy_string(x))),
        None => None,
    };
    proof {
        assert(oval(ov) == otext(a.source_type));
    }
    push_opt_value(&mut out, "digitalSourceType", ov);
    let ghost e5 = add_opt(e4, "digitalSourceType"@, otext(a.source_type));
    let ghost e6 = add_opt(e5, "instanceId"@, None);
    let ov = match &a.parameters {
        Some(x) => Some(Value::Dict(entries_clone(x))),
        None => None,
    };
    proof {
        assert(oval(ov) == odict(a.parameters));
    }
    push_opt_value(&mut out, "parameters", ov);
    let ghost e7 = add_opt(e6, "parameters"@, odict(a.parameters));
    let ov = match &a.reason {
        Some(x) => Some(Value::Text(crate::value::copy_string(x))),
        None => None,
    };
    proof {
        assert(oval(ov) == otext(a.reason));
    }
    push_opt_value(&mut out, "reason", ov);
    let ghost e8 = add_opt(e7, "reason"@, otext(a.reason));
    let ov = match &a.related {
        Some(x) => {
            let mut rv: Vec<Value> = Vec::new();
            let mut i: usize = 0;
            while i < x.len()
                invariant
                    i <= x@.len(),
                    vseq_model(rv@) == actions_seq_wire(x@.take(i as int), false),
                decreases x@.len() - i,
            {
                proof {
                    broadcast use vstd::std_specs::vec::axiom_vec_index_decreases;
                    assert(a.related == Some(*x));
                    assert(decreases_to!(*a => a.related));
                    assert(decreases_to!(a.related => *x));
                    assert(decreases_to!(*x => x@[i as int]));
                }
                let c = action_to_value(&x[i]);
                proof {
                    crate::value::lemma_vseq_model_push(rv@, c);
                    lemma_actions_seq_wire_snoc(x@.take(i as int), x@[i as int], false);
                    assert(x@.take(i + 1) =~= x@.take(i as int).push(x@[i as int]));
                }
                rv.push(c);
                i = i + 1;
            }
            proof {
                assert(x@.take(x@.len() as int) =~= x@);
            }
            Some(Value::Array(rv))
        },
        None => None,
    };
    proof {
        assert(oval(ov) == orelated(a.related, false));
    }
    push_opt_value(&mut out, "related", ov);
    let ghost e9 = add_opt(e8, "related"@, orelated(a.related, false));
    let ov = match &a.software_agent {
        Some(x) => Some(agent_to_value(x)),
        None => None,
    };
    proof {
        assert(oval(ov) == oagent(a.software_agent));
    }
    push_opt_value(&mut out, "softwareAgent", ov);
    let ghost e10 = add_opt(e9, "softwareAgent"@, oagent(a.software_agent));
    let ov = match a.software_agent_index {
        Some(x) => Some(Value::UInt(x as u64)),
        None => None,
    };
    proof {
        assert(oval(ov) == ouint(a.software_agent_index));
    }
    push_opt_value(&mut out, "softwareAgentIndex", ov);
    let ghost e11 = add_opt(e10, "softwareAgentIndex"@, ouint(a.software_agent_index));
    let ov = match &a.when {
        Some(x) => Some(Value::Text(crate::value::copy_string(x))),
        None => None,
    };
    proof {
        assert(oval(ov) == otext(a.when));
    }
    push_opt_value(&mut out, "when", ov);
    let ghost e12 = add_opt(e11, "when"@, otext(a.when));
    proof {
        assert(vmap_model(out@) == e12);
        assert(e12 == action_entries(*a, false));
    }
    Value::Dict(out)
}

/// Appends one entry with the given key when the value is present.
fn push_opt_value(out: &mut Vec<(String, Value)>, key: &str, o: Option<Value>)
    ensures
        vmap_model(final(out)@) == add_opt(vmap_model(old(out)@), key@, oval(o)),
{
    match o {
        Some(v) => {
            push_entry(out, key, v);
        },
        None => {},
    }
}

/// Appends one entry with the given key.
fn push_entry(out: &mut Vec<(String, Value)>, key: &str, v: Value)
    ensures
        final(out)@ == old(out)@.push((final(out)@.last().0, v)),
        final(out)@.last().0@ == key@,
        final(out)@.last().1 == v,
        vmap_model(final(out)@) == vmap_model(old(out)@).push((key@, vmodel(v))),
{
    let k = crate::actions::new_string(key);
    let ghost old_out = out@;
    out.push((k, v));
    proof {
        crate::value::lemma_vmap_model_push(old_out, out@.last().0, out@.last().1);
        assert(out@ =~= old_out.push(out@.last()));
    }
}

/// The wire value of one template.
#[verifier::loop_isolation(false)]
pub fn template_to_value(t: &ActionTemplate) -> (r: Value)
    ensures
        vmodel(r) == template_wire(*t),
{
    let mut out: Vec<(String, Value)> = Vec::new();
    out.push((crate::actions::new_string("action"), Value::Text(crate::value::copy_string(&t.action))));
    let ghost e0 = seq![("action"@, VData::Text(t.action@))];
    proof {
        crate::value::lemma_vmap_model_push(Seq::empty(), out@[0].0, out@[0].1);
        assert(out@ =~= Seq::<(String, Value)>::empty().push(out@[0]));
        assert(vmap_model(Seq::<(String, Value)>::empty()) =~= Seq::<(Seq<char>, VData)>::empty());
        assert(vmap_model(out@) =~= e0);
    }
    if let Some(x) = &t.description {
        push_entry(&mut out, "description", Value::Text(crate::value::copy_string(x)));
    }
    let ghost e1 = add_opt(e0, "description"@, otext(t.description));
    proof {
        assert(vmap_model(out@) == e1);
    }
    if let Some(x) = &t.source_type {
        push_entry(&mut out, "digitalSourceType", Value::Text(crate::value::copy_string(x)));
    }
    let ghost e2 = add_opt(e1, "digitalSourceType"@, otext(t.source_type));
    proof {
        assert(vmap_model(out@) == e2);
    }
    if let Some(x) = &t.icon {
        let v = x.duplicate();
        push_entry(&mut out, "icon", v);
    }
    let ghost e3 = add_opt(e2, "icon"@, oval(t.icon));
    proof {
        assert(vmap_model(out@) == e3);
    }
    if let Some(x) = &t.software_agent {
        let v = Value::Dict(entries_clone(&x.entries));
        push_entry(&mut out, "softwareAgent", v);
    }
    let ghost e4 = add_opt(e3, "softwareAgent"@, ocgi(t.software_agent));
    proof {
        assert(vmap_model(out@) == e4);
    }
    if let Some(x) = t.software_agent_index {
        push_entry(&mut out, "softwareAgentIndex", Value::UInt(x as u64));
    }
    let ghost e5 = add_opt(e4, "softwareAgentIndex"@, ouint(t.software_agent_index));
    proof {
        assert(vmap_model(out@) == e5);
    }
    if let Some(x) = &t.template_parameters {
        let v = Value::Dict(entries_clone(x));
        push_entry(&mut out, "templateParameters", v);
    }
    let ghost e6 = add_opt(e5, "templateParameters"@, odict(t.template_parameters));
    proof {
        assert(vmap_model(out@) == e6);
        assert(e6 == template_entries(*t));
    }
    Value::Dict(out)
}

/// The wire value of a whole Actions assertion.
#[verifier::loop_isolation(false)]
pub fn actions_to_value(x: &Actions) -> (r: Value)
    ensures
        vmodel(r) == actions_wire(*x, false),
{
    let mut av: Vec<Value> = Vec::new();
    let mut i: usize = 0;
    while i < x.actions.len()
        invariant
            i <= x.actions@.len(),
            vseq_model(av@) == actions_seq_wire(x.actions@.take(i as int), false),
        decreases x.actions@.len() - i,
    {
        let c = action_to_value(&x.actions[i]);
        proof {
            crate::value::lemma_vseq_model_push(av@, c);
            lemma_actions_seq_wire_snoc(x.actions@.take(i as int), x.actions@[i as int], false);
            assert(x.actions@.take(i + 1) =~= x.actions@.take(i as int).push(
                x.actions@[i as int],
            ));
        }
        av.push(c);
        i = i + 1;
    }
    proof {
        assert(x.actions@.take(x.actions@.len() as int) =~= x.actions@);
    }
    let mut out: Vec<(String, Value)> = Vec::new();
    out.push((crate::actions::new_string("actions"), Value::Array(av)));
    let ghost e0 = seq![("actions"@, VData::Array(actions_seq_wire(x.actions@, false)))];
    proof {
        crate::value::lemma_vmap_model_push(Seq::empty(), out@[0].0, out@[0].1);
        assert(out@ =~= Seq::<(String, Value)>::empty().push(out@[0]));
        assert(vmap_model(Seq::<(String, Value)>::empty()) =~= Seq::<(Seq<char>, VData)>::empty());
        assert(vmap_model(out@) =~= e0);
    }
    if let Some(b) = x.all_actions_included {
        push_entry(&mut out, "allActionsIncluded", Value::Bool(b));
    }
    let ghost e1 = add_opt(e0, "allActionsIncluded"@, obool(x.all_actions_included));
    proof {
        assert(vmap_model(out@) == e1);
    }
    if let Some(m) = &x.metadata {
        let v = Value::Dict(entries_clone(&m.entries));
        push_entry(&mut out, "metadata", v);
    }
    let ghost e2 = add_opt(e1, "metadata"@, ometa(x.metadata));
    proof {
        assert(vmap_model(out@) == e2);
    }
    if let Some(sa) = &x.software_agents {
        let mut sv: Vec<Value> = Vec::new();
        let mut i: usize = 0;
        while i < sa.len()
            invariant
                i <= sa@.len(),
                vseq_model(sv@) == cgis_wire(sa@.take(i as int)),
            decreases sa@.len() - i,
        {
            let c = Value::Dict(entries_clone(&sa[i].entries));
            proof {
                crate::value::lemma_vseq_model_push(sv@, c);
                lemma_cgis_wire_snoc(sa@.take(i as int), sa@[i as int]);
                assert(sa@.take(i + 1) =~= sa@.take(i as int).push(sa@[i as int]));
            }
            sv.push(c);
            i = i + 1;
        }
        proof {
            assert(sa@.take(sa@.len() as int) =~= sa@);
        }
        push_entry(&mut out, "softwareAgents", Value::Array(sv));
    }
    let ghost e3 = add_opt(e2, "softwareAgents"@, ocgis(x.software_agents));
    proof {
        assert(vmap_model(out@) == e3);
    }
    if let Some(ts) = &x.templates {
        let mut tv: Vec<Value> = Vec::new();
        let mut i: usize = 0;
        while i < ts.len()
            invariant
                i <= ts@.len(),
                vseq_model(tv@) == templates_wire(ts@.take(i as int)),
            decreases ts@.len() - i,
        {
            let c = template_to_value(&ts[i]);
            proof {
                crate::value::lemma_vseq_model_push(tv@, c);
                lemma_templates_wire_snoc(ts@.take(i as int), ts@[i as int]);
                assert(ts@.take(i + 1) =~= ts@.take(i as int).push(ts@[i as int]));
            }
            tv.push(c);
            i = i + 1;
        }
        proof {
            assert(ts@.take(ts@.len() as int) =~= ts@);
        }
        push_entry(&mut out, "templates", Value::Array(tv));
    }
    let ghost e4 = add_opt(e3, "templates"@, otemplates(x.templates));
    proof {
        assert(vmap_model(out@) == e4);
        assert(e4 == actions_entries(*x, false));
    }
    Value::Dict(out)
}


/// Whether the entry keys are pairwise distinct.
fn entries_keys_unique(es: &Vec<(String, Value)>) -> (r: bool)
    ensures
        r == keys_unique(vmap_model(es@)),
{
    let n = es.len();
    let mut i: usize = 0;
    while i < n
        invariant
            n == es@.len(),
            i <= n,
            forall|x: int, y: int|
                0 <= x < y < n && x < i ==> (#[trigger] es@[x]).0@ != (#[trigger] es@[y]).0@,
        decreases n - i,
    {
        let kc = crate::strutil::str_chars(es[i].0.as_str());
        let mut j: usize = i + 1;
        while j < n
            invariant
                n == es@.len(),
                i < j <= n || (i + 1 == j && j <= n),
                i < n,
                kc@ == es@[i as int].0@,
                forall|y: int| i < y < j ==> (#[trigger] es@[y]).0@ != es@[i as int].0@,
            decreases n - j,
        {
            if crate::strutil::chars_eq_str(&kc, es[j].0.as_str()) {
                proof {
                    crate::value::lemma_vmap_model_len(es@);
                    crate::value::lemma_vmap_model_index(es@, i as int);
                    crate::value::lemma_vmap_model_index(es@, j as int);
                    let m = vmap_model(es@);
                    assert(m[i as int].0 == m[j as int].0);
                    assert(!keys_unique(m)) by {
                        if keys_unique(m) {
                            assert(m[i as int].0 != m[j as int].0);
                        }
                    }
                }
                return false;
            }
            j = j + 1;
        }
        i = i + 1;
    }
    proof {
        crate::value::lemma_vmap_model_len(es@);
        assert forall|x: int, y: int| 0 <= x < y < vmap_model(es@).len() implies (
        #[trigger] vmap_model(es@)[x]).0 != (#[trigger] vmap_model(es@)[y]).0 by {
            crate::value::lemma_vmap_model_index(es@, x);
            crate::value::lemma_vmap_model_index(es@, y);
        }
    }
    true
}

/// Reads an optional text field.
fn decode_text_field(es: &Vec<(String, Value)>, key: &str) -> (r: Result<Option<String>, Error>)
    ensures
        match r {
            Ok(o) => otext(o) == map_get(vmap_model(es@), key@),
            Err(e) => e == Error::Decode && (map_get(vmap_model(es@), key@) matches Some(w)
                && !(w is Text)),
        },
{
    match crate::actions::dict_get(es, key) {
        None => Ok(None),
        Some(v) => match v {
            Value::Text(s) => Ok(Some(crate::value::copy_string(s))),
            _ => Err(Error::Decode),
        },
    }
}

/// Reads the deprecated instance identifier under whichever of its
/// accepted key spellings appears first.
fn decode_instance_field(es: &Vec<(String, Value)>) -> (r: Result<Option<String>, Error>)
    ensures
        match r {
            Ok(o) => otext(o) == inst_lookup(vmap_model(es@)),
            Err(e) => e == Error::Decode && (inst_lookup(vmap_model(es@)) matches Some(w)
                && !(w is Text)),
        },
{
    match crate::actions::dict_get(es, "instanceId") {
        Some(v) => match v {
            Value::Text(s) => Ok(Some(crate::value::copy_string(s))),
            _ => Err(Error::Decode),
        },
        None => match crate::actions::dict_get(es, "instanceID") {
            Some(v) => match v {
                Value::Text(s) => Ok(Some(crate::value::copy_string(s))),
                _ => Err(Error::Decode),
            },
            None => decode_text_field(es, "instance_id"),
        },
    }
}

/// Reads an optional list-of-values field.
fn decode_arr_field(es: &Vec<(String, Value)>, key: &str) -> (r: Result<Option<Vec<Value>>, Error>)
    ensures
        match r {
            Ok(o) => oarr(o) == map_get(vmap_model(es@), key@),
            Err(e) => e == Error::Decode && (map_get(vmap_model(es@), key@) matches Some(w)
                && !(w is Array)),
        },
{
    match crate::actions::dict_get(es, key) {
        None => Ok(None),
        Some(v) => match v {
            Value::Array(xs) => Ok(Some(values_clone(xs))),
            _ => Err(Error::Decode),
        },
    }
}

/// Reads an optional parameter-map field; its keys must be unique.
fn decode_params_field(es: &Vec<(String, Value)>, key: &str) -> (r: Result<
    Option<Vec<(String, Value)>>,
    Error,
>)
    ensures
        match r {
            Ok(o) => odict(o) == map_get(vmap_model(es@), key@) && (o matches Some(p)
                ==> keys_unique(vmap_model(p@))),
            Err(e) => e == Error::Decode && (map_get(vmap_model(es@), key@) matches Some(w) && !(
            w matches VData::Dict(m) && keys_unique(m))),
        },
{
    match crate::actions::dict_get(es, key) {
        None => Ok(None),
        Some(v) => match v {
            Value::Dict(p) => {
                if entries_keys_unique(p) {
                    Ok(Some(entries_clone(p)))
                } else {
                    Err(Error::Decode)
                }
            },
            _ => Err(Error::Decode),
        },
    }
}

/// Reads an optional index field; the value must fit the machine's
/// index range.
fn decode_uint_field(es: &Vec<(String, Value)>, key: &str) -> (r: Result<Option<usize>, Error>)
    ensures
        match r {
            Ok(o) => ouint(o) == map_get(vmap_model(es@), key@),
            Err(e) => e == Error::Decode && (map_get(vmap_model(es@), key@) matches Some(w) && !(
            w matches VData::UInt(n) && n <= usize::MAX as u64)),
        },
{
    match crate::actions::dict_get(es, key) {
        None => Ok(None),
        Some(v) => match v {
            Value::UInt(n) => {
                if *n <= usize::MAX as u64 {
                    Ok(Some(*n as usize))
                } else {
                    Err(Error::Decode)
                }
            },
            _ => Err(Error::Decode),
        },
    }
}

/// Reads an optional boolean field.
fn decode_bool_field(es: &Vec<(String, Value)>, key: &str) -> (r: Result<Option<bool>, Error>)
    ensures
        match r {
            Ok(o) => obool(o) == map_get(vmap_model(es@), key@),
            Err(e) => e == Error::Decode && (map_get(vmap_model(es@), key@) matches Some(w)
                && !(w is Bool)),
        },
{
    match crate::actions::dict_get(es, key) {
        None => Ok(None),
        Some(v) => match v {
            Value::Bool(b) => Ok(Some(*b)),
            _ => Err(Error::Decode),
        },
    }
}

/// Reads an optional software-agent field: a text is a bare name, a map
/// is a structured descriptor.
fn decode_agent_field(es: &Vec<(String, Value)>, key: &str) -> (r: Result<
    Option<SoftwareAgent>,
    Error,
>)
    ensures
        match r {
            Ok(o) => oagent(o) == map_get(vmap_model(es@), key@),
            Err(e) => e == Error::Decode && (map_get(vmap_model(es@), key@) matches Some(w) && !(w
                is Text) && !(w is Dict)),
        },
{
    match crate::actions::dict_get(es, key) {
        None => Ok(None),
        Some(v) => match v {
            Value::Text(s) => Ok(
                Some(SoftwareAgent::String(crate::value::copy_string(s))),
            ),
            Value::Dict(p) => Ok(
                Some(
                    SoftwareAgent::ClaimGeneratorInfo(
                        ClaimGeneratorInfo { entries: entries_clone(p) },
                    ),
                ),
            ),
            _ => Err(Error::Decode),
        },
    }
}

/// Reads an optional structured-descriptor field.
fn decode_cgi_field(es: &Vec<(String, Value)>, key: &str) -> (r: Result<
    Option<ClaimGeneratorInfo>,
    Error,
>)
    ensures
        match r {
            Ok(o) => ocgi(o) == map_get(vmap_model(es@), key@),
            Err(e) => e == Error::Decode && (map_get(vmap_model(es@), key@) matches Some(w)
                && !(w is Dict)),
        },
{
    match crate::actions::dict_get(es, key) {
        None => Ok(None),
        Some(v) => match v {
            Value::Dict(p) => Ok(Some(ClaimGeneratorInfo { entries: entries_clone(p) })),
            _ => Err(Error::Decode),
        },
    }
}

/// Reads an optional metadata field.
fn decode_meta_field(es: &Vec<(String, Value)>, key: &str) -> (r: Result<Option<Metadata>, Error>)
    ensures
        match r {
            Ok(o) => ometa(o) == map_get(vmap_model(es@), key@),
            Err(e) => e == Error::Decode && (map_get(vmap_model(es@), key@) matches Some(w)
                && !(w is Dict)),
        },
{
    match crate::actions::dict_get(es, key) {
        None => Ok(None),
        Some(v) => match v {
            Value::Dict(p) => Ok(Some(Metadata { entries: entries_clone(p) })),
            _ => Err(Error::Decode),
        },
    }
}

/// Reads an optional field of arbitrary structured shape.
fn decode_val_field(es: &Vec<(String, Value)>, key: &str) -> (r: Result<Option<Value>, Error>)
    ensures
        r matches Ok(o) && oval(o) == map_get(vmap_model(es@), key@),
{
    match crate::actions::dict_get(es, key) {
        None => Ok(None),
        Some(v) => Ok(Some(v.duplicate())),
    }
}

/// Reads one action from a structured value: every field is taken by
/// key lookup, unknown keys are ignored, and the deprecated instance
/// identifier is accepted. Succeeds exactly when some well-formed
/// action reads from the value, and returns one that does.
#[verifier::loop_isolation(false)]
#[verifier::rlimit(100)]
#[verifier::spinoff_prover]
pub fn decode_action(v: &Value) -> (r: Result<Action, Error>)
    ensures
        match r {
            Ok(a) => wf_action(a) && action_from(vmodel(*v), a),
            Err(e) => e == Error::Decode && !(exists|a: Action|
                wf_action(a) && action_from(vmodel(*v), a)),
        },
    decreases *v,
{
    let ghost m = vmodel(*v);
    let entries = match v {
        Value::Dict(es) => es,
        _ => {
            return Err(Error::Decode);
        },
    };
    let action_s: String = match crate::actions::dict_get(entries, "action") {
        Some(av) => match av {
            Value::Text(s) => crate::value::copy_string(s),
            _ => {
                return Err(Error::Decode);
            },
        },
        None => {
            return Err(Error::Decode);
        },
    };
    let actors = match decode_arr_field(entries, "actors") {
        Ok(o) => o,
        Err(e) => {
            return Err(e);
        },
    };
    let changed = match decode_text_field(entries, "changed") {
        Ok(o) => o,
        Err(e) => {
            return Err(e);
        },
    };
    let changes = match decode_arr_field(entries, "changes") {
        Ok(o) => o,
        Err(e) => {
            return Err(e);
        },
    };
    let description = match decode_text_field(entries, "description") {
        Ok(o) => o,
        Err(e) => {
            return Err(e);
        },
    };
    let source_type = match decode_text_field(entries, "digitalSourceType") {
        Ok(o) => o,
        Err(e) => {
            return Err(e);
        },
    };
    let instance_id = match decode_instance_field(entries) {
        Ok(o) => o,
        Err(e) => {
            return Err(e);
        },
    };
    let parameters = match decode_params_field(entries, "parameters") {
        Ok(o) => o,
        Err(e) => {
            return Err(e);
        },
    };
    let reason = match decode_text_field(entries, "reason") {
        Ok(o) => o,
        Err(e) => {
            return Err(e);
        },
    };
    let software_agent = match decode_agent_field(entries, "softwareAgent") {
        Ok(o) => o,
        Err(e) => {
            return Err(e);
        },
    };
    let software_agent_index = match decode_uint_field(entries, "softwareAgentIndex") {
        Ok(o) => o,
        Err(e) => {
            return Err(e);
        },
    };
    let when = match decode_text_field(entries, "when") {
        Ok(o) => o,
        Err(e) => {
            return Err(e);
        },
    };
    let related: Option<Vec<Action>> = match crate::actions::dict_get(entries, "related") {
        None => None,
        Some(rv) => match rv {
            Value::Array(xs) => {
                let mut out: Vec<Action> = Vec::new();
                let mut i: usize = 0;
                while i < xs.len()
                    invariant
                        i <= xs@.len(),
                        out@.len() == i,
                        m == vmodel(*v),
                        map_get(m->Dict_0, "related"@) == Some(
                            VData::Array(vseq_model(xs@)),
                        ),
                        exists|k: int|
                            0 <= k < entries@.len() && (#[trigger] entries@[k]).1 == *rv,
                        *rv == Value::Array(*xs),
                        forall|j: int|
                            0 <= j < i ==> wf_action(#[trigger] out@[j]) && action_from(
                                vseq_model(xs@)[j],
                                out@[j],
                            ),
                    decreases xs@.len() - i,
                {
                    proof {
                        broadcast use vstd::std_specs::vec::axiom_vec_index_decreases;
                        let k = choose|k: int|
                            0 <= k < entries@.len() && (#[trigger] entries@[k]).1 == *rv;
                        assert(*v == Value::Dict(*entries));
                        assert(decreases_to!(*v => *entries));
                        assert(decreases_to!(*entries => entries@[k]));
                        assert(decreases_to!(entries@[k] => entries@[k].1));
                        assert(decreases_to!(*rv => *xs));
                        assert(decreases_to!(*xs => xs@[i as int]));
                        assert(decreases_to!(*v => xs@[i as int]));
                    }
                    match decode_action(&xs[i]) {
                        Ok(a) => {
                            proof {
                                crate::value::lemma_vseq_model_index(xs@, i as int);
                            }
                            out.push(a);
                            i = i + 1;
                        },
                        Err(e) => {
                            proof {
                                crate::value::lemma_vseq_model_len(xs@);
                                crate::value::lemma_vseq_model_index(xs@, i as int);
                                assert(!(exists|a: Action|
                                    wf_action(a) && action_from(m, a))) by {
                                    if exists|a: Action| wf_action(a) && action_from(m, a) {
                                        let a = choose|a: Action|
                                            wf_action(a) && action_from(m, a);
                                        let r = a.related.unwrap();
                                        assert(wf_action(r@[i as int]));
                                        assert(action_from(
                                            vseq_model(xs@)[i as int],
                                            r@[i as int],
                                        ));
                                    }
                                }
                            }
                            return Err(e);
                        },
                    }
                }
                proof {
                    crate::value::lemma_vseq_model_len(xs@);
                }
                Some(out)
            },
            _ => {
                return Err(Error::Decode);
            },
        },
    };
    let a = Action {
        action: action_s,
        when,
        software_agent,
        software_agent_index,
        changed,
        changes,
        instance_id,
        parameters,
        actors,
        source_type,
        related,
        reason,
        description,
    };
    proof {
        assert(action_from(vmodel(*v), a));
    }
    Ok(a)
}

/// Reads one template from a structured value. Succeeds exactly when
/// some well-formed template reads from the value.
pub fn decode_template(v: &Value) -> (r: Result<ActionTemplate, Error>)
    ensures
        match r {
            Ok(t) => wf_template(t) && template_from(vmodel(*v), t),
            Err(e) => e == Error::Decode && !(exists|t: ActionTemplate|
                wf_template(t) && template_from(vmodel(*v), t)),
        },
{
    let entries = match v {
        Value::Dict(es) => es,
        _ => {
            return Err(Error::Decode);
        },
    };
    let action_s: String = match crate::actions::dict_get(entries, "action") {
        Some(av) => match av {
            Value::Text(s) => crate::value::copy_string(s),
            _ => {
                return Err(Error::Decode);
            },
        },
        None => {
            return Err(Error::Decode);
        },
    };
    let description = match decode_text_field(entries, "description") {
        Ok(o) => o,
        Err(e) => {
            return Err(e);
        },
    };
    let source_type = match decode_text_field(entries, "digitalSourceType") {
        Ok(o) => o,
        Err(e) => {
            return Err(e);
        },
    };
    let icon = match decode_val_field(entries, "icon") {
        Ok(o) => o,
        Err(e) => {
            return Err(e);
        },
    };
    let software_agent = match decode_cgi_field(entries, "softwareAgent") {
        Ok(o) => o,
        Err(e) => {
            return Err(e);
        },
    };
    let software_agent_index = match decode_uint_field(entries, "softwareAgentIndex") {
        Ok(o) => o,
        Err(e) => {
            return Err(e);
        },
    };
    let template_parameters = match decode_params_field(entries, "templateParameters") {
        Ok(o) => o,
        Err(e) => {
            return Err(e);
        },
    };
    Ok(
        ActionTemplate {
            action: action_s,
            software_agent,
            software_agent_index,
            source_type,
            icon,
            description,
            template_parameters,
        },
    )
}

/// Reads a whole Actions assertion from a structured value. Succeeds
/// exactly when some well-formed assertion reads from the value.
#[verifier::loop_isolation(false)]
#[verifier::rlimit(100)]
#[verifier::spinoff_prover]
pub fn decode_actions_value(v: &Value) -> (r: Result<Actions, Error>)
    ensures
        match r {
            Ok(x) => wf_actions(x) && actions_from(vmodel(*v), x),
            Err(e) => e == Error::Decode && !(exists|x: Actions|
                wf_actions(x) && actions_from(vmodel(*v), x)),
        },
{
    let ghost m = vmodel(*v);
    let entries = match v {
        Value::Dict(es) => es,
        _ => {
            return Err(Error::Decode);
        },
    };
    let actions: Vec<Action> = match crate::actions::dict_get(entries, "actions") {
        Some(av) => match av {
            Value::Array(xs) => {
                let mut out: Vec<Action> = Vec::new();
                let mut i: usize = 0;
                while i < xs.len()
                    invariant
                        i <= xs@.len(),
                        out@.len() == i,
                        m == vmodel(*v),
                        map_get(m->Dict_0, "actions"@) == Some(
                            VData::Array(vseq_model(xs@)),
                        ),
                        forall|j: int|
                            0 <= j < i ==> wf_action(#[trigger] out@[j]) && action_from(
                                vseq_model(xs@)[j],
                                out@[j],
                            ),
                    decreases xs@.len() - i,
                {
                    match decode_action(&xs[i]) {
                        Ok(a) => {
                            proof {
                                crate::value::lemma_vseq_model_index(xs@, i as int);
                            }
                            out.push(a);
                            i = i + 1;
                        },
                        Err(e) => {
                            proof {
                                crate::value::lemma_vseq_model_len(xs@);
                                crate::value::lemma_vseq_model_index(xs@, i as int);
                                assert(!(exists|x: Actions|
                                    wf_actions(x) && actions_from(m, x))) by {
                                    if exists|x: Actions| wf_actions(x) && actions_from(m, x) {
                                        let x = choose|x: Actions|
                                            wf_actions(x) && actions_from(m, x);
                                        assert(wf_action(x.actions@[i as int]));
                                        assert(action_from(
                                            vseq_model(xs@)[i as int],
                                            x.actions@[i as int],
                                        ));
                                    }
                                }
                            }
                            return Err(e);
                        },
                    }
                }
                proof {
                    crate::value::lemma_vseq_model_len(xs@);
                }
                out
            },
            _ => {
                return Err(Error::Decode);
            },
        },
        None => {
            return Err(Error::Decode);
        },
    };
    let all_actions_included = match decode_bool_field(entries, "allActionsIncluded") {
        Ok(o) => o,
        Err(e) => {
            return Err(e);
        },
    };
    let metadata = match decode_meta_field(entries, "metadata") {
        Ok(o) => o,
        Err(e) => {
            return Err(e);
        },
    };
    let software_agents: Option<Vec<ClaimGeneratorInfo>> = match crate::actions::dict_get(
        entries,
        "softwareAgents",
    ) {
        None => None,
        Some(sv) => match sv {
            Value::Array(xs) => {
                let mut out: Vec<ClaimGeneratorInfo> = Vec::new();
                let mut i: usize = 0;
                while i < xs.len()
                    invariant
                        i <= xs@.len(),
                        out@.len() == i,
                        m == vmodel(*v),
                        map_get(m->Dict_0, "softwareAgents"@) == Some(
                            VData::Array(vseq_model(xs@)),
                        ),
                        cgis_wire(out@) == vseq_model(xs@).take(i as int),
                    decreases xs@.len() - i,
                {
                    match &xs[i] {
                        Value::Dict(p) => {
                            let c = ClaimGeneratorInfo { entries: entries_clone(p) };
                            proof {
                                crate::value::lemma_vseq_model_len(xs@);
                                crate::value::lemma_vseq_model_index(xs@, i as int);
                                lemma_cgis_wire_snoc(out@, c);
                                assert(vseq_model(xs@).take(i + 1) =~= vseq_model(xs@).take(
                                    i as int,
                                ).push(vseq_model(xs@)[i as int]));
                            }
                            out.push(c);
                            i = i + 1;
                        },
                        _ => {
                            proof {
                                crate::value::lemma_vseq_model_len(xs@);
                                crate::value::lemma_vseq_model_index(xs@, i as int);
                                assert(!(exists|x: Actions|
                                    wf_actions(x) && actions_from(m, x))) by {
                                    if exists|x: Actions| wf_actions(x) && actions_from(m, x) {
                                        let x = choose|x: Actions|
                                            wf_actions(x) && actions_from(m, x);
                                        let sa = x.software_agents.unwrap();
                                        lemma_cgis_wire_len(sa@);
                                        lemma_cgis_wire_index(sa@, i as int);
                                        assert(cgis_wire(sa@)[i as int] == vseq_model(
                                            xs@,
                                        )[i as int]);
                                    }
                                }
                            }
                            return Err(Error::Decode);
                        },
                    }
                }
                proof {
                    crate::value::lemma_vseq_model_len(xs@);
                    assert(vseq_model(xs@).take(xs@.len() as int) =~= vseq_model(xs@));
                }
                Some(out)
            },
            _ => {
                return Err(Error::Decode);
            },
        },
    };
    let templates: Option<Vec<ActionTemplate>> = match crate::actions::dict_get(
        entries,
        "templates",
    ) {
        None => None,
        Some(tv) => match tv {
            Value::Array(xs) => {
                let mut out: Vec<ActionTemplate> = Vec::new();
                let mut i: usize = 0;
                while i < xs.len()
                    invariant
                        i <= xs@.len(),
                        out@.len() == i,
                        m == vmodel(*v),
                        map_get(m->Dict_0, "templates"@) == Some(
                            VData::Array(vseq_model(xs@)),
                        ),
                        forall|j: int|
                            0 <= j < i ==> wf_template(#[trigger] out@[j]) && template_from(
                                vseq_model(xs@)[j],
                                out@[j],
                            ),
                    decreases xs@.len() - i,
                {
                    match decode_template(&xs[i]) {
                        Ok(t) => {
                            proof {
                                crate::value::lemma_vseq_model_index(xs@, i as int);
                            }
                            out.push(t);
                            i = i + 1;
                        },
                        Err(e) => {
                            proof {
                                crate::value::lemma_vseq_model_len(xs@);
                                crate::value::lemma_vseq_model_index(xs@, i as int);
                                assert(!(exists|x: Actions|
                                    wf_actions(x) && actions_from(m, x))) by {
                                    if exists|x: Actions| wf_actions(x) && actions_from(m, x) {
                                        let x = choose|x: Actions|
                                            wf_actions(x) && actions_from(m, x);
                                        let ts = x.templates.unwrap();
                                        assert(wf_template(ts@[i as int]));
                                        assert(template_from(
                                            vseq_model(xs@)[i as int],
                                            ts@[i as int],
                                        ));
                                    }
                                }
                            }
                            return Err(e);
                        },
                    }
                }
                proof {
                    crate::value::lemma_vseq_model_len(xs@);
                }
                Some(out)
            },
            _ => {
                return Err(Error::Decode);
            },
        },
    };
    let x = Actions { actions, software_agents, all_actions_included, templates, metadata };
    proof {
        assert(actions_from(vmodel(*v), x));
    }
    Ok(x)
}

impl Actions {
    /// Encodes this assertion to its deterministic binary form:
    /// re-encoding the same logical content always yields identical
    /// bytes, so content hashes over them are stable.
    pub fn to_bytes(&self) -> (r: Vec<u8>)
        ensures
            r@ == crate::cbor::spec_encode(actions_wire(*self, false)),
            crate::cbor::spec_bounded(actions_wire(*self, false)),
    {
        let v = actions_to_value(self);
        crate::cbor::encode_to_vec(&v)
    }

    /// Decodes an assertion from its binary form. The whole input must
    /// be one structured value of the expected shape; what is returned
    /// reads back, field for field, as exactly that value. Decoding
    /// succeeds exactly when the bytes are one whole structured value
    /// that some well-formed assertion reads from.
    pub fn from_bytes(b: &Vec<u8>) -> (r: Result<Actions, Error>)
        ensures
            match r {
                Ok(x) => wf_actions(x) && (crate::cbor::spec_decode(b@) matches Some(p) && p.1
                    == b@.len() && actions_from(p.0, x)),
                Err(e) => e == Error::Decode && !(crate::cbor::spec_decode(b@) matches Some(p)
                    && p.1 == b@.len() && (exists|x: Actions|
                    wf_actions(x) && actions_from(p.0, x))),
            },
    {
        match crate::cbor::decode_whole(b) {
            Ok(v) => decode_actions_value(&v),
            Err(e) => Err(e),
        }
    }
}

/// Round trip: any assertion decoded from an assertion's own encoded
/// bytes is model-equal to the original, field for field, for every
/// value whose deprecated instance identifiers are absent (the encoder
/// never writes them).
pub proof fn lemma_actions_round_trip(x: Actions, y: Actions)
    requires
        no_instances(x),
        crate::cbor::spec_bounded(actions_wire(x, false)),
        ({
            let e = crate::cbor::spec_encode(actions_wire(x, false));
            crate::cbor::spec_decode(e) matches Some(p) && p.1 == e.len() && actions_from(p.0, y)
        }),
    ensures
        actions_like(x, y),
{
    let w = actions_wire(x, false);
    let e = crate::cbor::spec_encode(w);
    crate::cbor::lemma_decode_encode(w, Seq::empty());
    assert(e + Seq::<u8>::empty() =~= e);
    lemma_actions_from_wire(x, y);
}


/// A well-formed assertion with no deprecated instance identifiers
/// reads back from its own wire form: encoding never loses it.
pub proof fn lemma_action_from_self(a: Action)
    requires
        wf_action(a),
        no_instance(a),
    ensures
        action_from(action_wire(a, false), a),
    decreases a,
{
    lemma_action_entries_get(a, false);
    match a.related {
        Some(r) => {
            lemma_actions_seq_wire_len(r@, false);
            assert forall|j: int| 0 <= j < r@.len() implies action_from(
                actions_seq_wire(r@, false)[j],
                #[trigger] r@[j],
            ) by {
                lemma_actions_seq_wire_index(r@, false, j);
                lemma_action_from_self(r@[j]);
            }
        },
        None => {},
    }
}

/// A well-formed template reads back from its own wire form.
pub proof fn lemma_template_from_self(t: ActionTemplate)
    ensures
        template_from(template_wire(t), t),
{
    lemma_template_entries_get(t);
}

/// A well-formed assertion reads back from its own wire form, so the
/// decoder always accepts what the encoder produced.
pub proof fn lemma_actions_from_self(x: Actions)
    requires
        wf_actions(x),
        no_instances(x),
    ensures
        actions_from(actions_wire(x, false), x),
{
    lemma_actions_entries_get(x, false);
    lemma_actions_seq_wire_len(x.actions@, false);
    assert forall|j: int| 0 <= j < x.actions@.len() implies action_from(
        actions_seq_wire(x.actions@, false)[j],
        #[trigger] x.actions@[j],
    ) by {
        lemma_actions_seq_wire_index(x.actions@, false, j);
        lemma_action_from_self(x.actions@[j]);
    }
    match x.templates {
        Some(ts) => {
            lemma_templates_wire_len(ts@);
            assert forall|j: int| 0 <= j < ts@.len() implies template_from(
                templates_wire(ts@)[j],
                #[trigger] ts@[j],
            ) by {
                lemma_templates_wire_index(ts@, j);
                lemma_template_from_self(ts@[j]);
            }
        },
        None => {},
    }
}


} // verus!
