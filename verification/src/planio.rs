//! Serializing a test plan to its JSON document and reading it back.
//!
//! Writing uses a fixed field order: `apiTitle`, `apiVersion`, `isE2E`,
//! then `tests` (unit mode) or `scenarios` (end-to-end mode). Reading
//! finds the fields in any order, ignores unknown fields, and inverts
//! writing exactly.

use vstd::prelude::*;
use crate::json::{Json, JsonV, JField, jview, jview_items, jview_fields, emit_json,
    parse_document, sp_document, spec_emit, lemma_document_round_trip};
use crate::model::{TestEntry, Scenario};
use crate::plan::TestPlan;
use crate::strutil::{str_to_chars, chars_to_string};

verus! {

/// A test entry as a mathematical value.
#[verifier::ext_equal]
pub struct EntryV {
    pub name: Seq<char>,
    pub method: Seq<char>,
    pub path: Seq<char>,
    pub assertions: Seq<Seq<char>>,
}

/// A scenario as a mathematical value.
#[verifier::ext_equal]
pub struct ScenarioV {
    pub name: Seq<char>,
    pub steps: Seq<Seq<char>>,
}

/// A plan as a mathematical value.
#[verifier::ext_equal]
pub struct PlanV {
    pub api_title: Seq<char>,
    pub api_version: Seq<char>,
    pub e2e: bool,
    pub tests: Seq<EntryV>,
    pub scenarios: Seq<ScenarioV>,
}

/// The string views of a string vector, from `i` on.
pub open spec fn text_views(v: Vec<String>, i: int) -> Seq<Seq<char>>
    decreases v@.len() - i,
{
    if i < 0 || i >= v@.len() {
        Seq::<Seq<char>>::empty()
    } else {
        seq![v@[i]@] + text_views(v, i + 1)
    }
}

/// The value of one test entry.
pub open spec fn entry_view(e: TestEntry) -> EntryV {
    EntryV {
        name: e.name@,
        method: e.method@,
        path: e.path@,
        assertions: text_views(e.assertions, 0),
    }
}

/// The value of one scenario.
pub open spec fn scenario_view(sc: Scenario) -> ScenarioV {
    ScenarioV { name: sc.name@, steps: text_views(sc.steps, 0) }
}

/// The entry values of an entry vector, from `i` on.
pub open spec fn entry_views(v: Vec<TestEntry>, i: int) -> Seq<EntryV>
    decreases v@.len() - i,
{
    if i < 0 || i >= v@.len() {
        Seq::<EntryV>::empty()
    } else {
        seq![entry_view(v@[i])] + entry_views(v, i + 1)
    }
}

/// The scenario values of a scenario vector, from `i` on.
pub open spec fn scenario_views(v: Vec<Scenario>, i: int) -> Seq<ScenarioV>
    decreases v@.len() - i,
{
    if i < 0 || i >= v@.len() {
        Seq::<ScenarioV>::empty()
    } else {
        seq![scenario_view(v@[i])] + scenario_views(v, i + 1)
    }
}

/// The value of a whole plan.
pub open spec fn plan_view(p: TestPlan) -> PlanV {
    PlanV {
        api_title: p.api_title@,
        api_version: p.api_version@,
        e2e: p.e2e,
        tests: entry_views(p.tests, 0),
        scenarios: scenario_views(p.scenarios, 0),
    }
}

/// A string array document.
pub open spec fn jv_of_texts(ss: Seq<Seq<char>>) -> JsonV {
    JsonV::Arr { items: ss.map_values(|s: Seq<char>| JsonV::Text { s }) }
}

/// One entry's document.
pub open spec fn jv_of_entry(e: EntryV) -> JsonV {
    JsonV::Obj {
        fields: seq![
            ("name"@, JsonV::Text { s: e.name }),
            ("method"@, JsonV::Text { s: e.method }),
            ("path"@, JsonV::Text { s: e.path }),
            ("assertions"@, jv_of_texts(e.assertions)),
        ],
    }
}

/// One scenario's document.
pub open spec fn jv_of_scenario(sc: ScenarioV) -> JsonV {
    JsonV::Obj {
        fields: seq![
            ("name"@, JsonV::Text { s: sc.name }),
            ("steps"@, jv_of_texts(sc.steps)),
        ],
    }
}

/// The whole plan's document.
pub open spec fn jv_of_plan(pv: PlanV) -> JsonV {
    JsonV::Obj {
        fields: seq![
            ("apiTitle"@, JsonV::Text { s: pv.api_title }),
            ("apiVersion"@, JsonV::Text { s: pv.api_version }),
            ("isE2E"@, JsonV::Bool { b: pv.e2e }),
            if pv.e2e {
                ("scenarios"@, JsonV::Arr {
                    items: pv.scenarios.map_values(|sc: ScenarioV| jv_of_scenario(sc)),
                })
            } else {
                ("tests"@, JsonV::Arr {
                    items: pv.tests.map_values(|e: EntryV| jv_of_entry(e)),
                })
            },
        ],
    }
}

/// The texts of a string-array document, if it is one.
pub open spec fn sp_texts_of(items: Seq<JsonV>) -> Option<Seq<Seq<char>>>
    decreases items.len(),
{
    if items.len() == 0 {
        Some(Seq::<Seq<char>>::empty())
    } else {
        match items[0] {
            JsonV::Text { s } => match sp_texts_of(items.drop_first()) {
                Some(r) => Some(seq![s] + r),
                None => None,
            },
            _ => None,
        }
    }
}

/// The first value carried under `key`, if the object has the field.
pub open spec fn field_lookup(fields: Seq<(Seq<char>, JsonV)>, key: Seq<char>) -> Option<JsonV>
    decreases fields.len(),
{
    if fields.len() == 0 {
        None
    } else if fields[0].0 == key {
        Some(fields[0].1)
    } else {
        field_lookup(fields.drop_first(), key)
    }
}

/// The entry a document describes: an object carrying `name`, `method`
/// and `path` texts and an `assertions` string array, in any field
/// order, with unknown fields ignored.
pub open spec fn sp_entry_of(jv: JsonV) -> Option<EntryV> {
    match jv {
        JsonV::Obj { fields } => match field_lookup(fields, "name"@) {
            Some(JsonV::Text { s: name }) => match field_lookup(fields, "method"@) {
                Some(JsonV::Text { s: method }) => match field_lookup(fields, "path"@) {
                    Some(JsonV::Text { s: path }) => match field_lookup(fields, "assertions"@) {
                        Some(JsonV::Arr { items }) => match sp_texts_of(items) {
                            Some(assertions) => Some(EntryV { name, method, path, assertions }),
                            None => None,
                        },
                        _ => None,
                    },
                    _ => None,
                },
                _ => None,
            },
            _ => None,
        },
        _ => None,
    }
}

/// The scenario a document describes: an object carrying a `name` text
/// and a `steps` string array, in any field order, with unknown fields
/// ignored.
pub open spec fn sp_scenario_of(jv: JsonV) -> Option<ScenarioV> {
    match jv {
        JsonV::Obj { fields } => match field_lookup(fields, "name"@) {
            Some(JsonV::Text { s: name }) => match field_lookup(fields, "steps"@) {
                Some(JsonV::Arr { items }) => match sp_texts_of(items) {
                    Some(steps) => Some(ScenarioV { name, steps }),
                    None => None,
                },
                _ => None,
            },
            _ => None,
        },
        _ => None,
    }
}

/// The entries of an entry-array document, if every item is an entry.
pub open spec fn sp_entries_of(items: Seq<JsonV>) -> Option<Seq<EntryV>>
    decreases items.len(),
{
    if items.len() == 0 {
        Some(Seq::<EntryV>::empty())
    } else {
        match sp_entry_of(items[0]) {
            Some(e) => match sp_entries_of(items.drop_first()) {
                Some(r) => Some(seq![e] + r),
                None => None,
            },
            None => None,
        }
    }
}

/// The scenarios of a scenario-array document.
pub open spec fn sp_scenarios_of(items: Seq<JsonV>) -> Option<Seq<ScenarioV>>
    decreases items.len(),
{
    if items.len() == 0 {
        Some(Seq::<ScenarioV>::empty())
    } else {
        match sp_scenario_of(items[0]) {
            Some(sc) => match sp_scenarios_of(items.drop_first()) {
                Some(r) => Some(seq![sc] + r),
                None => None,
            },
            None => None,
        }
    }
}

/// The plan a document describes: an object carrying `apiTitle`,
/// `apiVersion` and `isE2E`, and the collection the mode selects —
/// `scenarios` or `tests` — in any field order, with unknown fields
/// ignored.
pub open spec fn sp_plan_of(jv: JsonV) -> Option<PlanV> {
    match jv {
        JsonV::Obj { fields } => match field_lookup(fields, "apiTitle"@) {
            Some(JsonV::Text { s: title }) => match field_lookup(fields, "apiVersion"@) {
                Some(JsonV::Text { s: version }) => match field_lookup(fields, "isE2E"@) {
                    Some(JsonV::Bool { b }) => if b {
                        match field_lookup(fields, "scenarios"@) {
                            Some(JsonV::Arr { items }) => match sp_scenarios_of(items) {
                                Some(scs) => Some(
                                    PlanV {
                                        api_title: title,
                                        api_version: version,
                                        e2e: true,
                                        tests: Seq::<EntryV>::empty(),
                                        scenarios: scs,
                                    },
                                ),
                                None => None,
                            },
                            _ => None,
                        }
                    } else {
                        match field_lookup(fields, "tests"@) {
                            Some(JsonV::Arr { items }) => match sp_entries_of(items) {
                                Some(es) => Some(
                                    PlanV {
                                        api_title: title,
                                        api_version: version,
                                        e2e: false,
                                        tests: es,
                                        scenarios: Seq::<ScenarioV>::empty(),
                                    },
                                ),
                                None => None,
                            },
                            _ => None,
                        }
                    },
                    _ => None,
                },
                _ => None,
            },
            _ => None,
        },
        _ => None,
    }
}

/// Reading a string-array document written from texts yields the texts.
proof fn lemma_texts_inverse(ss: Seq<Seq<char>>)
    ensures
        sp_texts_of(ss.map_values(|s: Seq<char>| JsonV::Text { s })) == Some(ss),
    decreases ss.len(),
{
    let items = ss.map_values(|s: Seq<char>| JsonV::Text { s });
    if ss.len() > 0 {
        lemma_texts_inverse(ss.drop_first());
        assert(items.drop_first() =~= ss.drop_first().map_values(
            |s: Seq<char>| JsonV::Text { s },
        ));
        assert(items[0] == (JsonV::Text { s: ss[0] }));
        assert(seq![ss[0]] + ss.drop_first() =~= ss);
    } else {
        assert(items.len() == 0);
        assert(sp_texts_of(items) == Some(Seq::<Seq<char>>::empty()));
        assert(Seq::<Seq<char>>::empty() =~= ss);
    }
}

/// Reading an entry document written from an entry yields the entry.
proof fn lemma_entry_inverse(e: EntryV)
    ensures
        sp_entry_of(jv_of_entry(e)) == Some(e),
{
    lemma_texts_inverse(e.assertions);
    reveal_strlit("name");
    reveal_strlit("method");
    reveal_strlit("path");
    reveal_strlit("assertions");
    let jv = jv_of_entry(e);
    let fields = seq![
        ("name"@, JsonV::Text { s: e.name }),
        ("method"@, JsonV::Text { s: e.method }),
        ("path"@, JsonV::Text { s: e.path }),
        ("assertions"@, jv_of_texts(e.assertions)),
    ];
    let f1 = fields.drop_first();
    let f2 = f1.drop_first();
    let f3 = f2.drop_first();
    assert(f1[0] == fields[1] && f1[1] == fields[2] && f1[2] == fields[3]);
    assert(f2[0] == fields[2] && f2[1] == fields[3]);
    assert(f3[0] == fields[3]);
    assert("name"@ != "method"@) by {
        assert("name"@.len() != "method"@.len());
    }
    assert("name"@ != "path"@) by {
        assert("name"@[0] != "path"@[0]);
    }
    assert("name"@ != "assertions"@) by {
        assert("name"@.len() != "assertions"@.len());
    }
    assert("method"@ != "path"@) by {
        assert("method"@.len() != "path"@.len());
    }
    assert("method"@ != "assertions"@) by {
        assert("method"@.len() != "assertions"@.len());
    }
    assert("path"@ != "assertions"@) by {
        assert("path"@.len() != "assertions"@.len());
    }
    assert(field_lookup(fields, "name"@) == Some(JsonV::Text { s: e.name }));
    assert(field_lookup(fields, "method"@) == field_lookup(f1, "method"@));
    assert(field_lookup(f1, "method"@) == Some(JsonV::Text { s: e.method }));
    assert(field_lookup(fields, "path"@) == field_lookup(f1, "path"@));
    assert(field_lookup(f1, "path"@) == field_lookup(f2, "path"@));
    assert(field_lookup(f2, "path"@) == Some(JsonV::Text { s: e.path }));
    assert(field_lookup(fields, "assertions"@) == field_lookup(f1, "assertions"@));
    assert(field_lookup(f1, "assertions"@) == field_lookup(f2, "assertions"@));
    assert(field_lookup(f2, "assertions"@) == field_lookup(f3, "assertions"@));
    assert(field_lookup(f3, "assertions"@) == Some(jv_of_texts(e.assertions)));
    assert(sp_entry_of(jv) == Some(
        EntryV { name: e.name, method: e.method, path: e.path, assertions: e.assertions },
    ));
    assert(EntryV { name: e.name, method: e.method, path: e.path, assertions: e.assertions }
        =~= e);
}

/// Reading a scenario document written from a scenario yields it back.
proof fn lemma_scenario_inverse(sc: ScenarioV)
    ensures
        sp_scenario_of(jv_of_scenario(sc)) == Some(sc),
{
    lemma_texts_inverse(sc.steps);
    reveal_strlit("name");
    reveal_strlit("steps");
    let fields = seq![
        ("name"@, JsonV::Text { s: sc.name }),
        ("steps"@, jv_of_texts(sc.steps)),
    ];
    let f1 = fields.drop_first();
    assert(f1[0] == fields[1]);
    assert("name"@ != "steps"@) by {
        assert("name"@.len() != "steps"@.len());
    }
    assert(field_lookup(fields, "name"@) == Some(JsonV::Text { s: sc.name }));
    assert(field_lookup(fields, "steps"@) == field_lookup(f1, "steps"@));
    assert(field_lookup(f1, "steps"@) == Some(jv_of_texts(sc.steps)));
    assert(ScenarioV { name: sc.name, steps: sc.steps } =~= sc);
}

/// Reading an entry-array document written from entries yields them.
proof fn lemma_entries_inverse(es: Seq<EntryV>)
    ensures
        sp_entries_of(es.map_values(|e: EntryV| jv_of_entry(e))) == Some(es),
    decreases es.len(),
{
    let items = es.map_values(|e: EntryV| jv_of_entry(e));
    if es.len() > 0 {
        lemma_entry_inverse(es[0]);
        lemma_entries_inverse(es.drop_first());
        assert(items.drop_first() =~= es.drop_first().map_values(|e: EntryV| jv_of_entry(e)));
        assert(items[0] == jv_of_entry(es[0]));
        assert(seq![es[0]] + es.drop_first() =~= es);
    } else {
        assert(items.len() == 0);
        assert(Seq::<EntryV>::empty() =~= es);
    }
}

/// Reading a scenario-array document written from scenarios yields them.
proof fn lemma_scenarios_inverse(scs: Seq<ScenarioV>)
    ensures
        sp_scenarios_of(scs.map_values(|sc: ScenarioV| jv_of_scenario(sc))) == Some(scs),
    decreases scs.len(),
{
    let items = scs.map_values(|sc: ScenarioV| jv_of_scenario(sc));
    if scs.len() > 0 {
        lemma_scenario_inverse(scs[0]);
        lemma_scenarios_inverse(scs.drop_first());
        assert(items.drop_first() =~= scs.drop_first().map_values(
            |sc: ScenarioV| jv_of_scenario(sc),
        ));
        assert(items[0] == jv_of_scenario(scs[0]));
        assert(seq![scs[0]] + scs.drop_first() =~= scs);
    } else {
        assert(items.len() == 0);
        assert(Seq::<ScenarioV>::empty() =~= scs);
    }
}

/// Reading the plan document written from a well-formed plan yields
/// that plan.
pub proof fn lemma_plan_of_jv_inverse(pv: PlanV)
    requires
        if pv.e2e {
            pv.tests.len() == 0
        } else {
            pv.scenarios.len() == 0
        },
    ensures
        sp_plan_of(jv_of_plan(pv)) == Some(pv),
{
    reveal_strlit("apiTitle");
    reveal_strlit("apiVersion");
    reveal_strlit("isE2E");
    reveal_strlit("scenarios");
    reveal_strlit("tests");
    let last = if pv.e2e {
        ("scenarios"@, JsonV::Arr {
            items: pv.scenarios.map_values(|sc: ScenarioV| jv_of_scenario(sc)),
        })
    } else {
        ("tests"@, JsonV::Arr { items: pv.tests.map_values(|e: EntryV| jv_of_entry(e)) })
    };
    let fields = seq![
        ("apiTitle"@, JsonV::Text { s: pv.api_title }),
        ("apiVersion"@, JsonV::Text { s: pv.api_version }),
        ("isE2E"@, JsonV::Bool { b: pv.e2e }),
        last,
    ];
    let f1 = fields.drop_first();
    let f2 = f1.drop_first();
    let f3 = f2.drop_first();
    assert(f1[0] == fields[1] && f1[1] == fields[2] && f1[2] == fields[3]);
    assert(f2[0] == fields[2] && f2[1] == fields[3]);
    assert(f3[0] == fields[3]);
    assert("apiTitle"@ != "apiVersion"@) by {
        assert("apiTitle"@.len() != "apiVersion"@.len());
    }
    assert("apiTitle"@ != "isE2E"@) by {
        assert("apiTitle"@.len() != "isE2E"@.len());
    }
    assert("apiVersion"@ != "isE2E"@) by {
        assert("apiVersion"@.len() != "isE2E"@.len());
    }
    assert(field_lookup(fields, "apiTitle"@) == Some(JsonV::Text { s: pv.api_title }));
    assert(field_lookup(fields, "apiVersion"@) == field_lookup(f1, "apiVersion"@));
    assert(field_lookup(f1, "apiVersion"@) == Some(JsonV::Text { s: pv.api_version }));
    assert(field_lookup(fields, "isE2E"@) == field_lookup(f1, "isE2E"@));
    assert(field_lookup(f1, "isE2E"@) == field_lookup(f2, "isE2E"@));
    assert(field_lookup(f2, "isE2E"@) == Some(JsonV::Bool { b: pv.e2e }));
    if pv.e2e {
        lemma_scenarios_inverse(pv.scenarios);
        assert("apiTitle"@ != "scenarios"@) by {
        assert("apiTitle"@.len() != "scenarios"@.len());
    }
        assert("apiVersion"@ != "scenarios"@) by {
        assert("apiVersion"@.len() != "scenarios"@.len());
    }
        assert("isE2E"@ != "scenarios"@) by {
        assert("isE2E"@.len() != "scenarios"@.len());
    }
        assert(field_lookup(fields, "scenarios"@) == field_lookup(f1, "scenarios"@));
        assert(field_lookup(f1, "scenarios"@) == field_lookup(f2, "scenarios"@));
        assert(field_lookup(f2, "scenarios"@) == field_lookup(f3, "scenarios"@));
        assert(field_lookup(f3, "scenarios"@) == Some(last.1));
        assert(pv.tests =~= Seq::<EntryV>::empty());
        assert(sp_plan_of(jv_of_plan(pv)).unwrap() =~= pv);
    } else {
        lemma_entries_inverse(pv.tests);
        assert("apiTitle"@ != "tests"@) by {
        assert("apiTitle"@.len() != "tests"@.len());
    }
        assert("apiVersion"@ != "tests"@) by {
        assert("apiVersion"@.len() != "tests"@.len());
    }
        assert("isE2E"@ != "tests"@) by {
            assert("isE2E"@[0] != "tests"@[0]);
        }
        assert(field_lookup(fields, "tests"@) == field_lookup(f1, "tests"@));
        assert(field_lookup(f1, "tests"@) == field_lookup(f2, "tests"@));
        assert(field_lookup(f2, "tests"@) == field_lookup(f3, "tests"@));
        assert(field_lookup(f3, "tests"@) == Some(last.1));
        assert(pv.scenarios =~= Seq::<ScenarioV>::empty());
        assert(sp_plan_of(jv_of_plan(pv)).unwrap() =~= pv);
    }
}

/// Plan round trip: the serialized form of a well-formed plan, parsed
/// and read back, is exactly the plan — same title, version, mode, and
/// the same tests or scenarios in the original order.
pub proof fn lemma_plan_round_trip(pv: PlanV)
    requires
        if pv.e2e {
            pv.tests.len() == 0
        } else {
            pv.scenarios.len() == 0
        },
    ensures
        ({
            let doc = sp_document(spec_emit(jv_of_plan(pv)));
            &&& doc is Some
            &&& sp_plan_of(doc.unwrap()) == Some(pv)
        }),
{
    lemma_document_round_trip(jv_of_plan(pv));
    lemma_plan_of_jv_inverse(pv);
}

} // verus!

verus! {

/// Equality of two character vectors.
fn chars_eq(a: &Vec<char>, b: &Vec<char>) -> (r: bool)
    ensures
        r == (a@ == b@),
{
    if a.len() != b.len() {
        proof {
            assert(a@.len() != b@.len());
        }
        return false;
    }
    let n = a.len();
    let mut i: usize = 0;
    while i < n
        invariant
            i <= n,
            n == a@.len(),
            n == b@.len(),
            forall|k: int| 0 <= k < i ==> a@[k] == b@[k],
        decreases n - i,
    {
        if a[i] != b[i] {
            return false;
        }
        i = i + 1;
    }
    proof {
        assert(a@ =~= b@);
    }
    true
}

/// Text views are unchanged when the vectors agree from the given
/// positions on.
proof fn lemma_text_views_congruent(v2: Vec<String>, v: Vec<String>, i2: int, i: int)
    requires
        0 <= i <= v@.len(),
        0 <= i2 <= v2@.len(),
        v2@.len() - i2 == v@.len() - i,
        forall|k: int| 0 <= k < v@.len() - i ==> v2@[i2 + k] == #[trigger] v@[i + k],
    ensures
        text_views(v2, i2) == text_views(v, i),
    decreases v@.len() - i,
{
    if i < v@.len() {
        assert(v2@[i2 + 0] == v@[i + 0]);
        assert forall|k: int| 0 <= k < v@.len() - (i + 1) implies v2@[(i2 + 1) + k]
            == #[trigger] v@[(i + 1) + k] by {
            assert(v2@[i2 + (k + 1)] == v@[i + (k + 1)]);
        }
        lemma_text_views_congruent(v2, v, i2 + 1, i + 1);
    }
}

/// Entry views are unchanged when the vectors agree from the given
/// positions on.
proof fn lemma_entry_views_congruent(v2: Vec<TestEntry>, v: Vec<TestEntry>, i2: int, i: int)
    requires
        0 <= i <= v@.len(),
        0 <= i2 <= v2@.len(),
        v2@.len() - i2 == v@.len() - i,
        forall|k: int| 0 <= k < v@.len() - i ==> v2@[i2 + k] == #[trigger] v@[i + k],
    ensures
        entry_views(v2, i2) == entry_views(v, i),
    decreases v@.len() - i,
{
    if i < v@.len() {
        assert(v2@[i2 + 0] == v@[i + 0]);
        assert forall|k: int| 0 <= k < v@.len() - (i + 1) implies v2@[(i2 + 1) + k]
            == #[trigger] v@[(i + 1) + k] by {
            assert(v2@[i2 + (k + 1)] == v@[i + (k + 1)]);
        }
        lemma_entry_views_congruent(v2, v, i2 + 1, i + 1);
    }
}

/// Scenario views are unchanged when the vectors agree from the given
/// positions on.
proof fn lemma_scenario_views_congruent(v2: Vec<Scenario>, v: Vec<Scenario>, i2: int, i: int)
    requires
        0 <= i <= v@.len(),
        0 <= i2 <= v2@.len(),
        v2@.len() - i2 == v@.len() - i,
        forall|k: int| 0 <= k < v@.len() - i ==> v2@[i2 + k] == #[trigger] v@[i + k],
    ensures
        scenario_views(v2, i2) == scenario_views(v, i),
    decreases v@.len() - i,
{
    if i < v@.len() {
        assert(v2@[i2 + 0] == v@[i + 0]);
        assert forall|k: int| 0 <= k < v@.len() - (i + 1) implies v2@[(i2 + 1) + k]
            == #[trigger] v@[(i + 1) + k] by {
            assert(v2@[i2 + (k + 1)] == v@[i + (k + 1)]);
        }
        lemma_scenario_views_congruent(v2, v, i2 + 1, i + 1);
    }
}

/// Write the strings from `i` on as text documents.
fn texts_to_json(v: &Vec<String>, i: usize) -> (r: Vec<Json>)
    requires
        i <= v@.len(),
    ensures
        jview_items(r, 0) == text_views(*v, i as int).map_values(
            |s: Seq<char>| JsonV::Text { s },
        ),
    decreases v@.len() - i,
{
    if i == v.len() {
        let r: Vec<Json> = Vec::new();
        proof {
            assert(jview_items(r, 0) =~= text_views(*v, i as int).map_values(
                |s: Seq<char>| JsonV::Text { s },
            ));
        }
        r
    } else {
        let mut r = texts_to_json(v, i + 1);
        let ghost tail = r;
        let first = Json::Text { s: str_to_chars(v[i].as_str()) };
        r.insert(0, first);
        proof {
            assert forall|k: int| 0 <= k < tail@.len() implies r@[1 + k] == #[trigger] tail@[0
                + k] by {
                assert(r@ == tail@.insert(0, r@[0]));
            }
            crate::json::lemma_jview_items_congruent(r, tail, 1, 0);
            assert(r@[0] == first);
            assert(jview_items(r, 0) == seq![jview(r@[0])] + jview_items(r, 1));
            assert(jview(first) == (JsonV::Text { s: v@[i as int]@ }));
            assert(text_views(*v, i as int) == seq![v@[i as int]@] + text_views(
                *v,
                i as int + 1,
            ));
            assert(jview_items(r, 0) =~= text_views(*v, i as int).map_values(
                |s: Seq<char>| JsonV::Text { s },
            ));
        }
        r
    }
}

/// Write one entry as its document.
fn entry_to_json(e: &TestEntry) -> (r: Json)
    ensures
        jview(r) == jv_of_entry(entry_view(*e)),
{
    let mut fields: Vec<JField> = Vec::new();
    fields.push(JField {
        key: str_to_chars("name"),
        value: Json::Text { s: str_to_chars(e.name.as_str()) },
    });
    fields.push(JField {
        key: str_to_chars("method"),
        value: Json::Text { s: str_to_chars(e.method.as_str()) },
    });
    fields.push(JField {
        key: str_to_chars("path"),
        value: Json::Text { s: str_to_chars(e.path.as_str()) },
    });
    fields.push(JField {
        key: str_to_chars("assertions"),
        value: Json::Arr { items: texts_to_json(&e.assertions, 0) },
    });
    let r = Json::Obj { fields };
    proof {
        assert(jview_fields(fields, 4) == Seq::<(Seq<char>, JsonV)>::empty());
        assert(jview_fields(fields, 3) == seq![(fields@[3].key@, jview(fields@[3].value))]
            + jview_fields(fields, 4));
        assert(jview_fields(fields, 2) == seq![(fields@[2].key@, jview(fields@[2].value))]
            + jview_fields(fields, 3));
        assert(jview_fields(fields, 1) == seq![(fields@[1].key@, jview(fields@[1].value))]
            + jview_fields(fields, 2));
        assert(jview_fields(fields, 0) == seq![(fields@[0].key@, jview(fields@[0].value))]
            + jview_fields(fields, 1));
        assert(jview_fields(fields, 0) =~= (match jv_of_entry(entry_view(*e)) {
            JsonV::Obj { fields: fs } => fs,
            _ => Seq::<(Seq<char>, JsonV)>::empty(),
        }));
    }
    r
}

/// Write one scenario as its document.
fn scenario_to_json(sc: &Scenario) -> (r: Json)
    ensures
        jview(r) == jv_of_scenario(scenario_view(*sc)),
{
    let mut fields: Vec<JField> = Vec::new();
    fields.push(JField {
        key: str_to_chars("name"),
        value: Json::Text { s: str_to_chars(sc.name.as_str()) },
    });
    fields.push(JField {
        key: str_to_chars("steps"),
        value: Json::Arr { items: texts_to_json(&sc.steps, 0) },
    });
    let r = Json::Obj { fields };
    proof {
        assert(jview_fields(fields, 2) == Seq::<(Seq<char>, JsonV)>::empty());
        assert(jview_fields(fields, 1) == seq![(fields@[1].key@, jview(fields@[1].value))]
            + jview_fields(fields, 2));
        assert(jview_fields(fields, 0) == seq![(fields@[0].key@, jview(fields@[0].value))]
            + jview_fields(fields, 1));
        assert(jview_fields(fields, 0) =~= (match jv_of_scenario(scenario_view(*sc)) {
            JsonV::Obj { fields: fs } => fs,
            _ => Seq::<(Seq<char>, JsonV)>::empty(),
        }));
    }
    r
}

/// Write the entries from `i` on as documents.
fn entries_to_json(v: &Vec<TestEntry>, i: usize) -> (r: Vec<Json>)
    requires
        i <= v@.len(),
    ensures
        jview_items(r, 0) == entry_views(*v, i as int).map_values(|e: EntryV| jv_of_entry(e)),
    decreases v@.len() - i,
{
    if i == v.len() {
        let r: Vec<Json> = Vec::new();
        proof {
            assert(jview_items(r, 0) =~= entry_views(*v, i as int).map_values(
                |e: EntryV| jv_of_entry(e),
            ));
        }
        r
    } else {
        let mut r = entries_to_json(v, i + 1);
        let ghost tail = r;
        let first = entry_to_json(&v[i]);
        r.insert(0, first);
        proof {
            assert forall|k: int| 0 <= k < tail@.len() implies r@[1 + k] == #[trigger] tail@[0
                + k] by {
                assert(r@ == tail@.insert(0, r@[0]));
            }
            crate::json::lemma_jview_items_congruent(r, tail, 1, 0);
            assert(r@[0] == first);
            assert(jview_items(r, 0) == seq![jview(r@[0])] + jview_items(r, 1));
            assert(jview(first) == jv_of_entry(entry_view(v@[i as int])));
            assert(entry_views(*v, i as int) == seq![entry_view(v@[i as int])] + entry_views(
                *v,
                i as int + 1,
            ));
            assert(jview_items(r, 0) =~= entry_views(*v, i as int).map_values(
                |e: EntryV| jv_of_entry(e),
            ));
        }
        r
    }
}

/// Write the scenarios from `i` on as documents.
fn scenarios_to_json(v: &Vec<Scenario>, i: usize) -> (r: Vec<Json>)
    requires
        i <= v@.len(),
    ensures
        jview_items(r, 0) == scenario_views(*v, i as int).map_values(
            |sc: ScenarioV| jv_of_scenario(sc),
        ),
    decreases v@.len() - i,
{
    if i == v.len() {
        let r: Vec<Json> = Vec::new();
        proof {
            assert(jview_items(r, 0) =~= scenario_views(*v, i as int).map_values(
                |sc: ScenarioV| jv_of_scenario(sc),
            ));
        }
        r
    } else {
        let mut r = scenarios_to_json(v, i + 1);
        let ghost tail = r;
        let first = scenario_to_json(&v[i]);
        r.insert(0, first);
        proof {
            assert forall|k: int| 0 <= k < tail@.len() implies r@[1 + k] == #[trigger] tail@[0
                + k] by {
                assert(r@ == tail@.insert(0, r@[0]));
            }
            crate::json::lemma_jview_items_congruent(r, tail, 1, 0);
            assert(r@[0] == first);
            assert(jview_items(r, 0) == seq![jview(r@[0])] + jview_items(r, 1));
            assert(jview(first) == jv_of_scenario(scenario_view(v@[i as int])));
            assert(scenario_views(*v, i as int) == seq![scenario_view(v@[i as int])]
                + scenario_views(*v, i as int + 1));
            assert(jview_items(r, 0) =~= scenario_views(*v, i as int).map_values(
                |sc: ScenarioV| jv_of_scenario(sc),
            ));
        }
        r
    }
}

/// Write a plan as its document.
pub fn plan_to_json(p: &TestPlan) -> (r: Json)
    ensures
        jview(r) == jv_of_plan(plan_view(*p)),
{
    let mut fields: Vec<JField> = Vec::new();
    fields.push(JField {
        key: str_to_chars("apiTitle"),
        value: Json::Text { s: str_to_chars(p.api_title.as_str()) },
    });
    fields.push(JField {
        key: str_to_chars("apiVersion"),
        value: Json::Text { s: str_to_chars(p.api_version.as_str()) },
    });
    fields.push(JField { key: str_to_chars("isE2E"), value: Json::Bool { b: p.e2e } });
    if p.e2e {
        fields.push(JField {
            key: str_to_chars("scenarios"),
            value: Json::Arr { items: scenarios_to_json(&p.scenarios, 0) },
        });
    } else {
        fields.push(JField {
            key: str_to_chars("tests"),
            value: Json::Arr { items: entries_to_json(&p.tests, 0) },
        });
    }
    let r = Json::Obj { fields };
    proof {
        assert(jview_fields(fields, 4) == Seq::<(Seq<char>, JsonV)>::empty());
        assert(jview_fields(fields, 3) == seq![(fields@[3].key@, jview(fields@[3].value))]
            + jview_fields(fields, 4));
        assert(jview_fields(fields, 2) == seq![(fields@[2].key@, jview(fields@[2].value))]
            + jview_fields(fields, 3));
        assert(jview_fields(fields, 1) == seq![(fields@[1].key@, jview(fields@[1].value))]
            + jview_fields(fields, 2));
        assert(jview_fields(fields, 0) == seq![(fields@[0].key@, jview(fields@[0].value))]
            + jview_fields(fields, 1));
        assert(jview_fields(fields, 0) =~= (match jv_of_plan(plan_view(*p)) {
            JsonV::Obj { fields: fs } => fs,
            _ => Seq::<(Seq<char>, JsonV)>::empty(),
        }));
    }
    r
}

/// The serialized plan document, written wholesale on each save.
pub fn plan_to_text(p: &TestPlan) -> (r: String)
    ensures
        r@ == spec_emit(jv_of_plan(plan_view(*p))),
{
    let j = plan_to_json(p);
    let cs = emit_json(&j);
    chars_to_string(&cs)
}

} // verus!

verus! {

/// Read the texts of a string-array document, from item `i` on.
fn texts_from(items: &Vec<Json>, i: usize) -> (r: Option<Vec<String>>)
    requires
        i <= items@.len(),
    ensures
        match r {
            Some(v) => sp_texts_of(jview_items(*items, i as int)) == Some(text_views(v, 0)),
            None => sp_texts_of(jview_items(*items, i as int)) is None,
        },
    decreases items@.len() - i,
{
    if i == items.len() {
        let v: Vec<String> = Vec::new();
        proof {
            assert(jview_items(*items, i as int) == Seq::<JsonV>::empty());
            assert(text_views(v, 0) =~= Seq::<Seq<char>>::empty());
        }
        Some(v)
    } else {
        let ghost suffix = jview_items(*items, i as int);
        proof {
            assert(suffix == seq![jview(items@[i as int])] + jview_items(*items, i as int + 1));
            assert(suffix[0] == jview(items@[i as int]));
            assert(suffix.drop_first() =~= jview_items(*items, i as int + 1));
        }
        match &items[i] {
            Json::Text { s } => {
                match texts_from(items, i + 1) {
                    Some(v0) => {
                        let mut v = v0;
                        let ghost tail = v;
                        v.insert(0, chars_to_string(s));
                        proof {
                            assert forall|k: int| 0 <= k < tail@.len() implies v@[1 + k]
                                == #[trigger] tail@[0 + k] by {
                                assert(v@ == tail@.insert(0, v@[0]));
                            }
                            lemma_text_views_congruent(v, tail, 1, 0);
                            assert(text_views(v, 0) == seq![v@[0]@] + text_views(v, 1));
                            assert(v@[0]@ == s@);
                            assert(seq![s@] + text_views(tail, 0) =~= text_views(v, 0));
                        }
                        Some(v)
                    }
                    None => None,
                }
            }
            _ => {
                proof {
                    assert(!(jview(items@[i as int]) is Text));
                }
                None
            }
        }
    }
}

/// Find the first field carrying `key`.
fn lookup_field<'a>(fields: &'a Vec<JField>, key: &Vec<char>) -> (r: Option<&'a Json>)
    ensures
        match r {
            Some(j) => field_lookup(jview_fields(*fields, 0), key@) == Some(jview(*j)),
            None => field_lookup(jview_fields(*fields, 0), key@) is None,
        },
{
    let n = fields.len();
    let mut i: usize = 0;
    while i < n
        invariant
            i <= n,
            n == fields@.len(),
            field_lookup(jview_fields(*fields, 0), key@) == field_lookup(
                jview_fields(*fields, i as int),
                key@,
            ),
        decreases n - i,
    {
        proof {
            crate::json::lemma_jview_fields_len(*fields, i as int);
            assert(jview_fields(*fields, i as int)[0] == (
                fields@[i as int].key@,
                jview(fields@[i as int].value),
            ));
            assert(jview_fields(*fields, i as int).drop_first() =~= jview_fields(
                *fields,
                i as int + 1,
            ));
        }
        if chars_eq(&fields[i].key, key) {
            return Some(&fields[i].value);
        }
        i = i + 1;
    }
    proof {
        crate::json::lemma_jview_fields_len(*fields, i as int);
        assert(jview_fields(*fields, i as int).len() == 0);
    }
    None
}

/// Read one entry document.
fn entry_from(j: &Json) -> (r: Option<TestEntry>)
    ensures
        match r {
            Some(e) => sp_entry_of(jview(*j)) == Some(entry_view(e)),
            None => sp_entry_of(jview(*j)) is None,
        },
{
    match j {
        Json::Obj { fields } => {
            let k_name = str_to_chars("name");
            let k_method = str_to_chars("method");
            let k_path = str_to_chars("path");
            let k_assertions = str_to_chars("assertions");
            match lookup_field(fields, &k_name) {
                Some(jn) => match jn {
                    Json::Text { s: name } => match lookup_field(fields, &k_method) {
                        Some(jm) => match jm {
                            Json::Text { s: method } => match lookup_field(fields, &k_path) {
                                Some(jp) => match jp {
                                    Json::Text { s: path } => match lookup_field(
                                        fields,
                                        &k_assertions,
                                    ) {
                                        Some(ja) => match ja {
                                            Json::Arr { items } => match texts_from(items, 0) {
                                                Some(assertions) => {
                                                    let e = TestEntry {
                                                        name: chars_to_string(name),
                                                        method: chars_to_string(method),
                                                        path: chars_to_string(path),
                                                        assertions,
                                                    };
                                                    proof {
                                                        assert(sp_entry_of(jview(*j)).unwrap()
                                                            =~= entry_view(e));
                                                    }
                                                    Some(e)
                                                }
                                                None => None,
                                            },
                                            _ => {
                                                proof {
                                                    assert(!(jview(*ja) is Arr));
                                                }
                                                None
                                            }
                                        },
                                        None => None,
                                    },
                                    _ => {
                                        proof {
                                            assert(!(jview(*jp) is Text));
                                        }
                                        None
                                    }
                                },
                                None => None,
                            },
                            _ => {
                                proof {
                                    assert(!(jview(*jm) is Text));
                                }
                                None
                            }
                        },
                        None => None,
                    },
                    _ => {
                        proof {
                            assert(!(jview(*jn) is Text));
                        }
                        None
                    }
                },
                None => None,
            }
        }
        _ => None,
    }
}

/// Read one scenario document.
fn scenario_from(j: &Json) -> (r: Option<Scenario>)
    ensures
        match r {
            Some(sc) => sp_scenario_of(jview(*j)) == Some(scenario_view(sc)),
            None => sp_scenario_of(jview(*j)) is None,
        },
{
    match j {
        Json::Obj { fields } => {
            let k_name = str_to_chars("name");
            let k_steps = str_to_chars("steps");
            match lookup_field(fields, &k_name) {
                Some(jn) => match jn {
                    Json::Text { s: name } => match lookup_field(fields, &k_steps) {
                        Some(js) => match js {
                            Json::Arr { items } => match texts_from(items, 0) {
                                Some(steps) => {
                                    let sc = Scenario { name: chars_to_string(name), steps };
                                    proof {
                                        assert(sp_scenario_of(jview(*j)).unwrap()
                                            =~= scenario_view(sc));
                                    }
                                    Some(sc)
                                }
                                None => None,
                            },
                            _ => {
                                proof {
                                    assert(!(jview(*js) is Arr));
                                }
                                None
                            }
                        },
                        None => None,
                    },
                    _ => {
                        proof {
                            assert(!(jview(*jn) is Text));
                        }
                        None
                    }
                },
                None => None,
            }
        }
        _ => None,
    }
}

/// Read the entries of an entry-array document, from item `i` on.
fn entries_from(items: &Vec<Json>, i: usize) -> (r: Option<Vec<TestEntry>>)
    requires
        i <= items@.len(),
    ensures
        match r {
            Some(v) => sp_entries_of(jview_items(*items, i as int)) == Some(entry_views(v, 0)),
            None => sp_entries_of(jview_items(*items, i as int)) is None,
        },
    decreases items@.len() - i,
{
    if i == items.len() {
        let v: Vec<TestEntry> = Vec::new();
        proof {
            assert(jview_items(*items, i as int) == Seq::<JsonV>::empty());
            assert(entry_views(v, 0) =~= Seq::<EntryV>::empty());
        }
        Some(v)
    } else {
        let ghost suffix = jview_items(*items, i as int);
        proof {
            assert(suffix == seq![jview(items@[i as int])] + jview_items(*items, i as int + 1));
            assert(suffix[0] == jview(items@[i as int]));
            assert(suffix.drop_first() =~= jview_items(*items, i as int + 1));
        }
        match entry_from(&items[i]) {
            Some(e) => {
                match entries_from(items, i + 1) {
                    Some(v0) => {
                        let mut v = v0;
                        let ghost tail = v;
                        v.insert(0, e);
                        proof {
                            assert forall|k: int| 0 <= k < tail@.len() implies v@[1 + k]
                                == #[trigger] tail@[0 + k] by {
                                assert(v@ == tail@.insert(0, v@[0]));
                            }
                            lemma_entry_views_congruent(v, tail, 1, 0);
                            assert(entry_views(v, 0) == seq![entry_view(v@[0])] + entry_views(
                                v,
                                1,
                            ));
                            assert(seq![entry_view(v@[0])] + entry_views(tail, 0) =~= entry_views(
                                v,
                                0,
                            ));
                        }
                        Some(v)
                    }
                    None => None,
                }
            }
            None => None,
        }
    }
}

/// Read the scenarios of a scenario-array document, from item `i` on.
fn scenarios_from(items: &Vec<Json>, i: usize) -> (r: Option<Vec<Scenario>>)
    requires
        i <= items@.len(),
    ensures
        match r {
            Some(v) => sp_scenarios_of(jview_items(*items, i as int)) == Some(
                scenario_views(v, 0),
            ),
            None => sp_scenarios_of(jview_items(*items, i as int)) is None,
        },
    decreases items@.len() - i,
{
    if i == items.len() {
        let v: Vec<Scenario> = Vec::new();
        proof {
            assert(jview_items(*items, i as int) == Seq::<JsonV>::empty());
            assert(scenario_views(v, 0) =~= Seq::<ScenarioV>::empty());
        }
        Some(v)
    } else {
        let ghost suffix = jview_items(*items, i as int);
        proof {
            assert(suffix == seq![jview(items@[i as int])] + jview_items(*items, i as int + 1));
            assert(suffix[0] == jview(items@[i as int]));
            assert(suffix.drop_first() =~= jview_items(*items, i as int + 1));
        }
        match scenario_from(&items[i]) {
            Some(sc) => {
                match scenarios_from(items, i + 1) {
                    Some(v0) => {
                        let mut v = v0;
                        let ghost tail = v;
                        v.insert(0, sc);
                        proof {
                            assert forall|k: int| 0 <= k < tail@.len() implies v@[1 + k]
                                == #[trigger] tail@[0 + k] by {
                                assert(v@ == tail@.insert(0, v@[0]));
                            }
                            lemma_scenario_views_congruent(v, tail, 1, 0);
                            assert(scenario_views(v, 0) == seq![scenario_view(v@[0])]
                                + scenario_views(v, 1));
                            assert(seq![scenario_view(v@[0])] + scenario_views(tail, 0)
                                =~= scenario_views(v, 0));
                        }
                        Some(v)
                    }
                    None => None,
                }
            }
            None => None,
        }
    }
}

/// Read a plan document back into a plan.
pub fn json_to_plan(j: &Json) -> (r: Option<TestPlan>)
    ensures
        match r {
            Some(p) => sp_plan_of(jview(*j)) == Some(plan_view(p)) && p.wf(),
            None => sp_plan_of(jview(*j)) is None,
        },
{
    match j {
        Json::Obj { fields } => {
            let k_title = str_to_chars("apiTitle");
            let k_version = str_to_chars("apiVersion");
            let k_e2e = str_to_chars("isE2E");
            match lookup_field(fields, &k_title) {
                Some(jt) => match jt {
                    Json::Text { s: title } => match lookup_field(fields, &k_version) {
                        Some(jv2) => match jv2 {
                            Json::Text { s: version } => match lookup_field(fields, &k_e2e) {
                                Some(jb) => match jb {
                                    Json::Bool { b } => {
                                        if *b {
                                            let k_scenarios = str_to_chars("scenarios");
                                            match lookup_field(fields, &k_scenarios) {
                                                Some(js) => match js {
                                                    Json::Arr { items } => {
                                                        match scenarios_from(items, 0) {
                                                            Some(scenarios) => {
                                                                let p = TestPlan {
                                                                    api_title: chars_to_string(
                                                                        title,
                                                                    ),
                                                                    api_version: chars_to_string(
                                                                        version,
                                                                    ),
                                                                    e2e: true,
                                                                    tests: Vec::new(),
                                                                    scenarios,
                                                                };
                                                                proof {
                                                                    assert(entry_views(p.tests, 0)
                                                                        =~= Seq::<EntryV>::empty());
                                                                    assert(sp_plan_of(
                                                                        jview(*j),
                                                                    ).unwrap() =~= plan_view(p));
                                                                }
                                                                Some(p)
                                                            }
                                                            None => None,
                                                        }
                                                    }
                                                    _ => {
                                                        proof {
                                                            assert(!(jview(*js) is Arr));
                                                        }
                                                        None
                                                    }
                                                },
                                                None => None,
                                            }
                                        } else {
                                            let k_tests = str_to_chars("tests");
                                            match lookup_field(fields, &k_tests) {
                                                Some(js) => match js {
                                                    Json::Arr { items } => {
                                                        match entries_from(items, 0) {
                                                            Some(tests) => {
                                                                let p = TestPlan {
                                                                    api_title: chars_to_string(
                                                                        title,
                                                                    ),
                                                                    api_version: chars_to_string(
                                                                        version,
                                                                    ),
                                                                    e2e: false,
                                                                    tests,
                                                                    scenarios: Vec::new(),
                                                                };
                                                                proof {
                                                                    assert(scenario_views(
                                                                        p.scenarios,
                                                                        0,
                                                                    ) =~= Seq::<
                                                                        ScenarioV,
                                                                    >::empty());
                                                                    assert(sp_plan_of(
                                                                        jview(*j),
                                                                    ).unwrap() =~= plan_view(p));
                                                                }
                                                                Some(p)
                                                            }
                                                            None => None,
                                                        }
                                                    }
                                                    _ => {
                                                        proof {
                                                            assert(!(jview(*js) is Arr));
                                                        }
                                                        None
                                                    }
                                                },
                                                None => None,
                                            }
                                        }
                                    }
                                    _ => {
                                        proof {
                                            assert(!(jview(*jb) is Bool));
                                        }
                                        None
                                    }
                                },
                                None => None,
                            },
                            _ => {
                                proof {
                                    assert(!(jview(*jv2) is Text));
                                }
                                None
                            }
                        },
                        None => None,
                    },
                    _ => {
                        proof {
                            assert(!(jview(*jt) is Text));
                        }
                        None
                    }
                },
                None => None,
            }
        }
        _ => None,
    }
}

/// Read a serialized plan document, as `plan_to_text` writes it.
pub fn plan_from_text(s: &str) -> (r: Option<TestPlan>)
    ensures
        match r {
            Some(p) => {
                &&& sp_document(s@) is Some
                &&& sp_plan_of(sp_document(s@).unwrap()) == Some(plan_view(p))
                &&& p.wf()
            },
            None => sp_document(s@) is None || sp_plan_of(sp_document(s@).unwrap()) is None,
        },
{
    let cs = str_to_chars(s);
    match parse_document(&cs) {
        Some(j) => json_to_plan(&j),
        None => None,
    }
}

} // verus!

verus! {

/// The entries of a reply that should be a JSON array of entry
/// documents.
pub open spec fn sp_entries_reply(s: Seq<char>) -> Option<Seq<EntryV>> {
    match sp_document(s) {
        Some(JsonV::Arr { items }) => sp_entries_of(items),
        _ => None,
    }
}

/// The scenarios of a reply that should be a JSON array of scenario
/// documents.
pub open spec fn sp_scenarios_reply(s: Seq<char>) -> Option<Seq<ScenarioV>> {
    match sp_document(s) {
        Some(JsonV::Arr { items }) => sp_scenarios_of(items),
        _ => None,
    }
}

/// Parse a model reply as a JSON array of test entries; a reply of any
/// other shape, or with a malformed entry, is rejected.
pub fn entries_from_reply(s: &str) -> (r: Option<Vec<TestEntry>>)
    ensures
        match r {
            Some(v) => sp_entries_reply(s@) == Some(entry_views(v, 0)),
            None => sp_entries_reply(s@) is None,
        },
{
    let cs = str_to_chars(s);
    match parse_document(&cs) {
        Some(j) => match j {
            Json::Arr { items } => entries_from(&items, 0),
            _ => None,
        },
        None => None,
    }
}

/// Parse a model reply as a JSON array of scenarios.
pub fn scenarios_from_reply(s: &str) -> (r: Option<Vec<Scenario>>)
    ensures
        match r {
            Some(v) => sp_scenarios_reply(s@) == Some(scenario_views(v, 0)),
            None => sp_scenarios_reply(s@) is None,
        },
{
    let cs = str_to_chars(s);
    match parse_document(&cs) {
        Some(j) => match j {
            Json::Arr { items } => scenarios_from(&items, 0),
            _ => None,
        },
        None => None,
    }
}

} // verus!
