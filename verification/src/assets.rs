//! Containers that can be run: who made the solver inside, how it is started, which parameters
//! it takes, and which files it leaves behind.

use vstd::prelude::*;

use crate::order::stable_sort;
use crate::order::stably_sorted;
use crate::order::text_at_most;
use crate::order::text_le;
use crate::order::total_order;
use crate::outputs::OutputRule;
use crate::text::lemma_texts_push;
use crate::text::str_eq;
use crate::text::texts;

verus! {

pub struct SolverIdentity {
    pub vendor: String,
    pub product: String,
    pub version: String,
    pub capabilities: Vec<String>,
}

pub struct Execution {
    pub entrypoint: String,
    pub launch_wrapper: Option<String>,
    pub command_template: String,
    pub environment_vars: Vec<(String, String)>,
}

pub struct FileHandling {
    pub working_dir: String,
    pub input_mapping: Vec<String>,
    pub output_collection: Vec<OutputRule>,
}

/// A parameter of a solver.
pub struct ParameterDef {
    pub param_type: Option<String>,
    pub default: Option<String>,
    pub flag: Option<String>,
    pub options: Option<Vec<String>>,
}

pub struct SolverManifest {
    pub manifest_version: String,
    pub solver_identity: SolverIdentity,
    pub execution: Execution,
    pub file_handling: FileHandling,
    pub parameter_mapping: Vec<(String, ParameterDef)>,
    pub vnc_enabled: bool,
}

pub struct ContainerAsset {
    pub id: String,
    pub name: String,
    pub image_uri: String,
    pub manifest: SolverManifest,
}

/// The name under which the containers of one product are offered together.
pub open spec fn group_name(c: ContainerAsset) -> Seq<char> {
    c.manifest.solver_identity.vendor@ + " "@ + c.manifest.solver_identity.product@
}

/// The version of the solver in a container.
pub open spec fn version_of(c: ContainerAsset) -> Seq<char> {
    c.manifest.solver_identity.version@
}

pub fn template_group_name(container: &ContainerAsset) -> (r: String)
    ensures
        r@ == group_name(*container),
{
    let mut r: String = container.manifest.solver_identity.vendor.clone();
    r.append(" ");
    r.append(&container.manifest.solver_identity.product);
    r
}

pub fn template_version(container: &ContainerAsset) -> (r: String)
    ensures
        r@ == version_of(*container),
{
    container.manifest.solver_identity.version.clone()
}

/// A product as it is offered: its name, its versions in order, and the version taken at first.
pub struct TemplateCard {
    pub name: String,
    pub versions: Vec<String>,
    pub first_version: String,
    pub availability: Option<String>,
}

/// Some container belongs to the group.
pub open spec fn offers(containers: Seq<ContainerAsset>, name: Seq<char>) -> bool {
    exists|i: int| 0 <= i < containers.len() && group_name(#[trigger] containers[i]) == name
}

/// Some container of the group holds the version.
pub open spec fn offers_version(
    containers: Seq<ContainerAsset>,
    name: Seq<char>,
    version: Seq<char>,
) -> bool {
    exists|i: int|
        0 <= i < containers.len() && group_name(#[trigger] containers[i]) == name && version_of(
            containers[i],
        ) == version
}

/// The texts stand in strictly rising order.
pub open spec fn rising(s: Seq<Seq<char>>) -> bool {
    forall|i: int, j: int|
        0 <= i < j < s.len() ==> text_le(#[trigger] s[i], #[trigger] s[j]) && s[i] != s[j]
}

/// What a card has to say of a group of containers: its versions, each once and in order, the
/// lowest of which is taken at first.
pub open spec fn card_describes(
    card: TemplateCard,
    containers: Seq<ContainerAsset>,
    name: Seq<char>,
) -> bool {
    &&& card.name@ == name
    &&& rising(texts(card.versions@))
    &&& forall|v: Seq<char>|
        #![trigger texts(card.versions@).contains(v)]
        texts(card.versions@).contains(v) <==> offers_version(containers, name, v)
    &&& card.versions@.len() > 0
    &&& card.first_version@ == card.versions@[0]@
    &&& card.availability is None
}

/// The order of strings as texts.
pub open spec fn strings_in_order() -> spec_fn(String, String) -> bool {
    |a: String, b: String| text_le(a@, b@)
}

proof fn lemma_strings_total()
    ensures
        total_order(strings_in_order()),
{
    let le = strings_in_order();
    assert forall|a: String, b: String| #[trigger] le(a, b) || le(b, a) by {
        crate::order::law_text_order_is_total(a@, b@);
    }
    assert forall|a: String, b: String, c: String| #[trigger] le(a, b) && #[trigger] le(
        b,
        c,
    ) implies le(a, c) by {
        crate::order::law_text_order_is_transitive(a@, b@, c@);
    }
}

/// The texts of a list in rising order, each once.
pub fn sorted_distinct(list: Vec<String>) -> (r: Vec<String>)
    ensures
        rising(texts(r@)),
        forall|t: Seq<char>|
            #![trigger texts(r@).contains(t)]
            texts(r@).contains(t) <==> texts(list@).contains(t),
{
    let ghost input = list@;
    proof {
        lemma_strings_total();
    }
    let at_most = |a: &String, b: &String| -> (q: bool)
        ensures
            (q == text_le(a@, b@)),
        { text_at_most(a, b) };
    let sorted: Vec<String> = stable_sort(list, at_most, Ghost(strings_in_order()));
    let ghost s = texts(sorted@);
    let ghost ordered = sorted@;
    assert(stably_sorted(ordered, input, strings_in_order()));
    assert(forall|i: int, j: int| 0 <= i <= j < s.len() ==> text_le(#[trigger] s[i], #[trigger] s[j])) by {
        assert forall|i: int, j: int| 0 <= i <= j < s.len() implies text_le(
            #[trigger] s[i],
            #[trigger] s[j],
        ) by {
            assert(strings_in_order()(ordered[i], ordered[j]));
        }
    }
    let mut r: Vec<String> = Vec::new();
    let mut i: usize = 0;
    while i < sorted.len()
        invariant
            i <= sorted@.len(),
            s == texts(sorted@),
            forall|a: int, b: int|
                0 <= a <= b < s.len() ==> text_le(#[trigger] s[a], #[trigger] s[b]),
            rising(texts(r@)),
            r@.len() > 0 <==> i > 0,
            r@.len() > 0 ==> texts(r@).last() == s[i - 1],
            forall|k: int| 0 <= k < i ==> texts(r@).contains(#[trigger] s[k]),
            forall|k: int| 0 <= k < r@.len() ==> s.contains(#[trigger] texts(r@)[k]),
        decreases sorted@.len() - i,
    {
        let n: usize = r.len();
        let ghost before = texts(r@);
        assert(s[i as int] == sorted@[i as int]@);
        if n == 0 || !str_eq(&r[n - 1], &sorted[i]) {
            let t: String = sorted[i].clone();
            proof {
                lemma_texts_push(r@, t);
            }
            r.push(t);
            let ghost after = texts(r@);
            proof {
                assert(after == before.push(t@));
                assert forall|a: int, b: int| 0 <= a < b < after.len() implies text_le(
                    #[trigger] after[a],
                    #[trigger] after[b],
                ) && after[a] != after[b] by {
                    if b == after.len() - 1 {
                        assert(text_le(s[i - 1], s[i as int]));
                        assert(before.last() == s[i - 1]);
                        if a < before.len() - 1 {
                            assert(text_le(before[a], before[before.len() - 1]));
                            crate::order::law_text_order_is_transitive(
                                before[a],
                                before.last(),
                                t@,
                            );
                            if before[a] == t@ {
                                crate::order::law_text_order_is_total(before[a], before.last());
                            }
                        }
                    } else {
                        assert(before[a] != before[b]);
                    }
                }
                assert forall|k: int| 0 <= k < i + 1 implies after.contains(#[trigger] s[k]) by {
                    if k < i {
                        assert(before.contains(s[k]));
                        let m = choose|m: int| 0 <= m < before.len() && before[m] == s[k];
                        assert(after[m] == s[k]);
                    } else {
                        assert(after[before.len() as int] == s[k]);
                    }
                }
                assert forall|k: int| 0 <= k < after.len() implies s.contains(
                    #[trigger] after[k],
                ) by {
                    if k < before.len() {
                        assert(after[k] == before[k]);
                    } else {
                        assert(s[i as int] == after[k]);
                    }
                }
            }
        } else {
            assert(before.last() == r@[n - 1]@);
            assert(before[before.len() - 1] == s[i as int]);
        }
        i = i + 1;
    }
    proof {
        let out = texts(r@);
        let given = texts(input);
        assert forall|t: Seq<char>| #![trigger out.contains(t)] out.contains(t)
            <==> given.contains(t) by {
            if out.contains(t) {
                let k = choose|k: int| 0 <= k < out.len() && out[k] == t;
                assert(s.contains(out[k]));
                let m = choose|m: int| 0 <= m < s.len() && s[m] == t;
                ordered.to_multiset_ensures();
                input.to_multiset_ensures();
                assert(ordered.contains(ordered[m]));
                assert(ordered.to_multiset().contains(ordered[m]));
                assert(input.contains(ordered[m]));
                let j = choose|j: int| 0 <= j < input.len() && input[j] == ordered[m];
                assert(given[j] == t);
            }
            if given.contains(t) {
                let j = choose|j: int| 0 <= j < given.len() && given[j] == t;
                ordered.to_multiset_ensures();
                input.to_multiset_ensures();
                assert(input.contains(input[j]));
                assert(input.to_multiset().contains(input[j]));
                assert(ordered.contains(input[j]));
                let m = choose|m: int| 0 <= m < ordered.len() && ordered[m] == input[j];
                assert(s[m] == t);
            }
        }
    }
    r
}

fn group_names(containers: &Vec<ContainerAsset>) -> (r: Vec<String>)
    ensures
        forall|name: Seq<char>|
            #![trigger texts(r@).contains(name)]
            texts(r@).contains(name) <==> offers(containers@, name),
{
    let mut r: Vec<String> = Vec::new();
    let mut i: usize = 0;
    while i < containers.len()
        invariant
            i <= containers@.len(),
            r@.len() == i,
            forall|k: int| 0 <= k < i ==> (#[trigger] r@[k])@ == group_name(containers@[k]),
        decreases containers@.len() - i,
    {
        r.push(template_group_name(&containers[i]));
        i = i + 1;
    }
    proof {
        let t = texts(r@);
        assert forall|name: Seq<char>| #![trigger t.contains(name)] t.contains(name) <==> offers(
            containers@,
            name,
        ) by {
            if t.contains(name) {
                let k = choose|k: int| 0 <= k < t.len() && t[k] == name;
                assert(r@[k]@ == name);
                assert(group_name(containers@[k]) == name);
            }
            if offers(containers@, name) {
                let k = choose|k: int|
                    0 <= k < containers@.len() && group_name(#[trigger] containers@[k]) == name;
                assert(r@[k]@ == name);
                assert(t[k] == name);
            }
        }
    }
    r
}

fn group_versions(containers: &Vec<ContainerAsset>, name: &str) -> (r: Vec<String>)
    ensures
        forall|v: Seq<char>|
            #![trigger texts(r@).contains(v)]
            texts(r@).contains(v) <==> offers_version(containers@, name@, v),
{
    let mut r: Vec<String> = Vec::new();
    let mut i: usize = 0;
    let ghost mut from: Seq<int> = Seq::empty();
    while i < containers.len()
        invariant
            i <= containers@.len(),
            from.len() == r@.len(),
            forall|k: int|
                0 <= k < r@.len() ==> 0 <= #[trigger] from[k] < i && group_name(
                    containers@[from[k]],
                ) == name@ && version_of(containers@[from[k]]) == r@[k]@,
            forall|j: int|
                0 <= j < i && group_name(#[trigger] containers@[j]) == name@ ==> texts(
                    r@,
                ).contains(version_of(containers@[j])),
        decreases containers@.len() - i,
    {
        let ghost before = texts(r@);
        let ghost old_from = from;
        if str_eq(&template_group_name(&containers[i]), name) {
            let v: String = template_version(&containers[i]);
            proof {
                lemma_texts_push(r@, v);
                from = from.push(i as int);
            }
            r.push(v);
            proof {
                let after = texts(r@);
                assert forall|j: int|
                    0 <= j < i + 1 && group_name(#[trigger] containers@[j]) == name@ implies after.contains(
                version_of(containers@[j])) by {
                    if j < i {
                        assert(before.contains(version_of(containers@[j])));
                        let m = choose|m: int|
                            0 <= m < before.len() && before[m] == version_of(containers@[j]);
                        assert(after[m] == before[m]);
                    } else {
                        assert(after[before.len() as int] == version_of(containers@[j]));
                    }
                }
                assert forall|k: int| 0 <= k < r@.len() implies 0 <= #[trigger] from[k] < i + 1
                    && group_name(containers@[from[k]]) == name@ && version_of(containers@[from[k]])
                    == r@[k]@ by {
                    if k < old_from.len() {
                        assert(from[k] == old_from[k]);
                    }
                }
            }
        }
        i = i + 1;
    }
    proof {
        let t = texts(r@);
        assert forall|v: Seq<char>| #![trigger t.contains(v)] t.contains(v) <==> offers_version(
            containers@,
            name@,
            v,
        ) by {
            if t.contains(v) {
                let k = choose|k: int| 0 <= k < t.len() && t[k] == v;
                assert(r@[k]@ == v);
                assert(0 <= from[k] < i);
            }
            if offers_version(containers@, name@, v) {
                let j = choose|j: int|
                    0 <= j < containers@.len() && group_name(#[trigger] containers@[j]) == name@
                        && version_of(containers@[j]) == v;
                assert(t.contains(version_of(containers@[j])));
            }
        }
    }
    r
}

/// The products that the containers offer, sorted by name, each with its versions.
pub fn template_cards(containers: &Vec<ContainerAsset>) -> (r: Vec<TemplateCard>)
    ensures
        rising(Seq::new(r@.len(), |i: int| r@[i].name@)),
        forall|i: int|
            0 <= i < r@.len() ==> card_describes(
                #[trigger] r@[i],
                containers@,
                r@[i].name@,
            ),
        forall|name: Seq<char>|
            #[trigger] offers(containers@, name) <==> exists|i: int|
                0 <= i < r@.len() && (#[trigger] r@[i]).name@ == name,
{
    let names: Vec<String> = sorted_distinct(group_names(containers));
    let ghost n = texts(names@);
    let mut r: Vec<TemplateCard> = Vec::new();
    let mut i: usize = 0;
    while i < names.len()
        invariant
            i <= names@.len(),
            n == texts(names@),
            rising(n),
            forall|name: Seq<char>|
                #![trigger n.contains(name)]
                n.contains(name) <==> offers(containers@, name),
            r@.len() == i,
            forall|k: int| 0 <= k < i ==> (#[trigger] r@[k]).name@ == n[k],
            forall|k: int|
                0 <= k < i ==> card_describes(#[trigger] r@[k], containers@, r@[k].name@),
        decreases names@.len() - i,
    {
        assert(n[i as int] == names@[i as int]@);
        let versions: Vec<String> = sorted_distinct(group_versions(containers, &names[i]));
        proof {
            let name = n[i as int];
            assert(n.contains(name));
            assert(offers(containers@, name));
            let j = choose|j: int|
                0 <= j < containers@.len() && group_name(#[trigger] containers@[j]) == name;
            assert(offers_version(containers@, name, version_of(containers@[j])));
            assert(texts(versions@).contains(version_of(containers@[j])));
            assert(versions@.len() > 0);
        }
        let first_version: String = versions[0].clone();
        let card = TemplateCard {
            name: names[i].clone(),
            versions,
            first_version,
            availability: None,
        };
        assert(card_describes(card, containers@, card.name@));
        r.push(card);
        i = i + 1;
    }
    proof {
        let card_names = Seq::new(r@.len(), |k: int| r@[k].name@);
        assert(card_names =~= n);
        assert forall|name: Seq<char>| #[trigger] offers(containers@, name) <==> exists|k: int|
            0 <= k < r@.len() && (#[trigger] r@[k]).name@ == name by {
            assert(n.contains(name) <==> offers(containers@, name));
            if offers(containers@, name) {
                let k = choose|k: int| 0 <= k < n.len() && n[k] == name;
                assert(r@[k].name@ == name);
            }
            if exists|k: int| 0 <= k < r@.len() && (#[trigger] r@[k]).name@ == name {
                let k = choose|k: int| 0 <= k < r@.len() && (#[trigger] r@[k]).name@ == name;
                assert(n[k] == name);
                assert(n.contains(name));
            }
        }
    }
    r
}

/// The versions of a product, each once and in order.
pub fn template_versions(containers: &Vec<ContainerAsset>, name: &str) -> (r: Vec<String>)
    ensures
        rising(texts(r@)),
        forall|v: Seq<char>|
            #![trigger texts(r@).contains(v)]
            texts(r@).contains(v) <==> offers_version(containers@, name@, v),
{
    let all: Vec<String> = group_versions(containers, name);
    let ghost given = texts(all@);
    let r: Vec<String> = sorted_distinct(all);
    assert forall|v: Seq<char>| #![trigger texts(r@).contains(v)] texts(r@).contains(v)
        <==> offers_version(containers@, name@, v) by {
        assert(texts(r@).contains(v) <==> given.contains(v));
    }
    r
}

/// The first container from `from` on that belongs to the group, and holds the version if one
/// is asked for.
pub open spec fn container_from(
    containers: Seq<ContainerAsset>,
    name: Seq<char>,
    version: Option<Seq<char>>,
    from: int,
) -> Option<int>
    decreases containers.len() - from,
{
    if from < 0 || from >= containers.len() {
        None
    } else if group_name(containers[from]) == name && (version is None || version_of(
        containers[from],
    ) == version->0) {
        Some(from)
    } else {
        container_from(containers, name, version, from + 1)
    }
}

/// The container to run for a product and a version: the first of that version, or else the
/// first of the product.
pub open spec fn container_for(
    containers: Seq<ContainerAsset>,
    name: Seq<char>,
    version: Seq<char>,
) -> Option<int> {
    match container_from(containers, name, Some(version), 0) {
        Some(i) => Some(i),
        None => container_from(containers, name, None, 0),
    }
}

/// The first container of a product.
pub fn first_of_product(containers: &Vec<ContainerAsset>, name: &str) -> (r: Option<usize>)
    ensures
        match container_from(containers@, name@, None, 0) {
            Some(i) => r is Some && r->0 == i && 0 <= i < containers@.len(),
            None => r is None,
        },
{
    let mut i: usize = 0;
    while i < containers.len()
        invariant
            i <= containers@.len(),
            container_from(containers@, name@, None, 0) == container_from(
                containers@,
                name@,
                None,
                i as int,
            ),
        decreases containers@.len() - i,
    {
        if str_eq(&template_group_name(&containers[i]), name) {
            return Some(i);
        }
        i = i + 1;
    }
    None
}

pub fn matching_container(containers: &Vec<ContainerAsset>, name: &str, version: &str) -> (r:
    Option<usize>)
    ensures
        match container_for(containers@, name@, version@) {
            Some(i) => r is Some && r->0 == i && 0 <= i < containers@.len(),
            None => r is None,
        },
{
    let mut i: usize = 0;
    while i < containers.len()
        invariant
            i <= containers@.len(),
            container_from(containers@, name@, Some(version@), 0) == container_from(
                containers@,
                name@,
                Some(version@),
                i as int,
            ),
        decreases containers@.len() - i,
    {
        if str_eq(&template_group_name(&containers[i]), name) && str_eq(
            &template_version(&containers[i]),
            version,
        ) {
            return Some(i);
        }
        i = i + 1;
    }
    first_of_product(containers, name)
}

proof fn lemma_container_from(
    containers: Seq<ContainerAsset>,
    name: Seq<char>,
    version: Option<Seq<char>>,
    from: int,
)
    requires
        0 <= from,
    ensures
        match container_from(containers, name, version, from) {
            Some(i) => from <= i < containers.len() && group_name(containers[i]) == name && (version
                is None || version_of(containers[i]) == version->0) && forall|k: int|
                from <= k < i ==> !(group_name(#[trigger] containers[k]) == name && (version is None
                    || version_of(containers[k]) == version->0)),
            None => forall|k: int|
                from <= k < containers.len() ==> !(group_name(#[trigger] containers[k]) == name
                    && (version is None || version_of(containers[k]) == version->0)),
        },
    decreases containers.len() - from,
{
    if from < containers.len() {
        lemma_container_from(containers, name, version, from + 1);
    }
}

/// A product goes by its vendor and its name. What is run for it is a container of that product: of
/// the version that was asked for, where there is one; and there is something to run exactly where
/// the product is offered at all.
pub proof fn law_the_version_asked_for_is_run(
    containers: Seq<ContainerAsset>,
    name: Seq<char>,
    version: Seq<char>,
    j: int,
)
    requires
        0 <= j < containers.len(),
        containers[j].manifest.solver_identity.vendor@ + seq![' ']
            + containers[j].manifest.solver_identity.product@ == name,
    ensures
        container_for(containers, name, version) matches Some(i) && 0 <= i < containers.len()
            && containers[i].manifest.solver_identity.vendor@ + seq![' ']
            + containers[i].manifest.solver_identity.product@ == name && (
        containers[j].manifest.solver_identity.version@ == version
            ==> containers[i].manifest.solver_identity.version@ == version && i <= j),
{
    reveal_strlit(" ");
    assert(" "@ =~= seq![' ']);
    lemma_container_from(containers, name, Some(version), 0);
    lemma_container_from(containers, name, None, 0);
    assert(group_name(containers[j]) == name);
    if let Some(i) = container_for(containers, name, version) {
        assert(group_name(containers[i]) == name);
    }
}

/// Of a product that nobody offers, nothing is run.
pub proof fn law_nothing_is_run_that_is_not_offered(
    containers: Seq<ContainerAsset>,
    name: Seq<char>,
    version: Seq<char>,
)
    requires
        forall|i: int| 0 <= i < containers.len() ==> group_name(#[trigger] containers[i]) != name,
    ensures
        container_for(containers, name, version) is None,
{
    lemma_container_from(containers, name, Some(version), 0);
    lemma_container_from(containers, name, None, 0);
}

} // verus!
