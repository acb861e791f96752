use vstd::prelude::*;

verus! {

/// The queries that the volume API answers, by key.
#[derive(Clone, Debug)]
pub struct RouterBuilder {
    pub queries: Vec<String>,
}

/// The volume API: one query, `get`, which answers with the volume listing.
pub fn mount() -> (r: RouterBuilder)
    ensures
        r.queries@.len() == 1,
        r.queries@[0]@ == "get"@,
{
    proof {
        reveal_strlit("get");
    }
    let mut queries: Vec<String> = Vec::new();
    queries.push("get".to_owned());
    RouterBuilder { queries }
}

} // verus!
