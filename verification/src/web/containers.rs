//! The register of containers: searching it, and adding to it.

use vstd::prelude::*;

use crate::assets::ContainerAsset;
use crate::assets::SolverIdentity;
use crate::numbers::decimal;
use crate::numbers::decimal_u32;
use crate::pieces::join;
use crate::pieces::joined;
use crate::text::has_text;
use crate::text::lowercase;
use crate::text::lowercased;
use crate::text::texts;
use crate::text::trim;
use crate::text::trimmed;
use crate::web::listing::found_in;
use crate::web::listing::keep;
use crate::web::listing::page_of;
use crate::web::listing::take_page;
use crate::web::listing::text_found;

verus! {

/// How many containers stand on a page.
pub const CONTAINERS_PER_PAGE: usize = 15;

/// The texts that a container is searched by, in lower case.
pub open spec fn searched_texts(c: ContainerAsset) -> Seq<Seq<char>> {
    let solver = c.manifest.solver_identity;
    seq![
        lowercased(c.name@),
        lowercased(solver.vendor@),
        lowercased(solver.product@),
        lowercased(solver.version@),
        lowercased(joined(texts(solver.capabilities@), " "@)),
        lowercased(c.image_uri@),
    ]
}

/// A container matches a search, which is in lower case.
pub open spec fn container_found(c: ContainerAsset, query: Seq<char>) -> bool {
    text_found(searched_texts(c), query)
}

fn is_found(c: &ContainerAsset, query: &str) -> (r: bool)
    ensures
        r == container_found(*c, query@),
{
    let solver: &SolverIdentity = &c.manifest.solver_identity;
    let mut list: Vec<String> = Vec::new();
    list.push(lowercase(&c.name));
    list.push(lowercase(&solver.vendor));
    list.push(lowercase(&solver.product));
    list.push(lowercase(&solver.version));
    list.push(lowercase(&join(&solver.capabilities, " ")));
    list.push(lowercase(&c.image_uri));
    assert(texts(list@) =~= searched_texts(*c));
    found_in(&list, query)
}

/// The containers that match a search, in whatever case it was typed.
pub open spec fn found_containers(all: Seq<ContainerAsset>, search: Seq<char>) -> Seq<
    ContainerAsset,
> {
    all.filter(|c: ContainerAsset| container_found(c, lowercased(search)))
}

pub fn filtered_containers(all: Vec<ContainerAsset>, search: &str) -> (r: Vec<ContainerAsset>)
    ensures
        r@ == found_containers(all@, search@),
{
    let query: String = lowercase(search);
    let found = |c: &ContainerAsset| -> (q: bool)
        ensures
            (q == container_found(*c, query@)),
        { is_found(c, &query) };
    keep(all, found, Ghost(|c: ContainerAsset| container_found(c, lowercased(search@))))
}

pub fn paginated_containers(all: Vec<ContainerAsset>, search: &str, page: usize) -> (r: Vec<
    ContainerAsset,
>)
    ensures
        r@ == page_of(
            found_containers(all@, search@),
            page as nat,
            CONTAINERS_PER_PAGE as nat,
        ),
{
    take_page(filtered_containers(all, search), page, CONTAINERS_PER_PAGE)
}

/// What a solver can do, in one line.
pub fn capabilities_text(c: &ContainerAsset) -> (r: String)
    ensures
        r@ == joined(texts(c.manifest.solver_identity.capabilities@), ", "@),
{
    join(&c.manifest.solver_identity.capabilities, ", ")
}

/// The name and the image of a container to be registered, without the spaces around them; both
/// have to be given.
pub fn check_registration(name: &str, image_uri: &str) -> (r: Result<(String, String), String>)
    ensures
        r is Ok <==> trimmed(name@).len() > 0 && trimmed(image_uri@).len() > 0,
        r matches Ok(form) ==> form.0@ == trimmed(name@) && form.1@ == trimmed(image_uri@),
        r matches Err(message) ==> message@ == "Name and image URI are required."@,
{
    let name: String = trim(name);
    let image_uri: String = trim(image_uri);
    if name.as_str().is_empty() || image_uri.as_str().is_empty() {
        Err("Name and image URI are required.".to_string())
    } else {
        Ok((name, image_uri))
    }
}

/// What is said of the answer to a registration, and whether the form is then emptied.
pub open spec fn registration_answer(status: nat, body: Seq<char>) -> (Seq<char>, bool) {
    if status == 201 {
        ("Container registered."@, true)
    } else {
        ("Registration failed: HTTP "@ + decimal(status) + " — "@ + body, false)
    }
}

pub fn registration_result(status: u16, body: &str) -> (r: (String, bool))
    ensures
        (r.0@, r.1) == registration_answer(status as nat, body@),
{
    if status == 201 {
        ("Container registered.".to_string(), true)
    } else {
        let mut r: String = "Registration failed: HTTP ".to_string();
        r.append(&decimal_u32(status as u32));
        r.append(" — ");
        r.append(body);
        (r, false)
    }
}

/// What is said if a registration cannot be sent.
pub fn registration_failure(error: &str) -> (r: String)
    ensures
        r@ == "Registration failed: "@ + error@,
{
    let mut r: String = "Registration failed: ".to_string();
    r.append(error);
    r
}

/// What is said of a manifest that cannot be read.
pub fn manifest_failure(error: &str) -> (r: String)
    ensures
        r@ == "Invalid manifest JSON: "@ + error@,
{
    let mut r: String = "Invalid manifest JSON: ".to_string();
    r.append(error);
    r
}

/// Where a container is deleted.
pub fn container_url(name: &str) -> (r: String)
    ensures
        r@ == "/api/v1/containers/"@ + name@,
{
    let mut r: String = "/api/v1/containers/".to_string();
    r.append(name);
    r
}

/// A container is found by its name, by the vendor, the product, the version and the capabilities of
/// its solver, and by its image; by nothing else.
pub proof fn law_containers_are_found_by_what_they_are(c: ContainerAsset, query: Seq<char>)
    requires
        query.len() > 0,
    ensures
        container_found(c, query) <==> has_text(lowercased(c.name@), query) || has_text(
            lowercased(c.manifest.solver_identity.vendor@),
            query,
        ) || has_text(lowercased(c.manifest.solver_identity.product@), query) || has_text(
            lowercased(c.manifest.solver_identity.version@),
            query,
        ) || has_text(
            lowercased(joined(texts(c.manifest.solver_identity.capabilities@), " "@)),
            query,
        ) || has_text(lowercased(c.image_uri@), query),
{
    let t = searched_texts(c);
    assert(t[0] == lowercased(c.name@));
    assert(t[1] == lowercased(c.manifest.solver_identity.vendor@));
    assert(t[2] == lowercased(c.manifest.solver_identity.product@));
    assert(t[3] == lowercased(c.manifest.solver_identity.version@));
    assert(t[4] == lowercased(joined(texts(c.manifest.solver_identity.capabilities@), " "@)));
    assert(t[5] == lowercased(c.image_uri@));
}

/// No container that matches is missing, and none is shown that does not.
pub proof fn law_no_matching_container_is_missing(
    all: Seq<ContainerAsset>,
    search: Seq<char>,
    c: ContainerAsset,
)
    ensures
        found_containers(all, search).contains(c) <==> all.contains(c) && container_found(
            c,
            lowercased(search),
        ),
{
    let p = |c: ContainerAsset| container_found(c, lowercased(search));
    crate::web::listing::lemma_kept_exactly(all, p, c);
}

/// A container is registered exactly if the answer says that it was created; otherwise the form is
/// kept and the answer is told.
pub proof fn law_only_created_containers_are_registered(status: nat, body: Seq<char>)
    ensures
        registration_answer(status, body).1 <==> status == 201,
        status == 201 ==> registration_answer(status, body).0 == "Container registered."@,
        status != 201 ==> has_text(registration_answer(status, body).0, decimal(status))
            && crate::text::has_suffix(registration_answer(status, body).0, body),
{
    let a = "Registration failed: HTTP "@;
    let d = decimal(status);
    let m = " — "@;
    crate::text::lemma_ends_with(a + d + m, body);
    assert(a + d + m + body =~= a + d + (m + body));
    crate::text::lemma_holds(a, d, m + body);
}

} // verus!
