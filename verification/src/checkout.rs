//! The checkout workflow: resolving the names of the selected products
//! against the product table, building the payload for the external
//! interaction-checking service, and deciding from that service's response
//! whether to enqueue an order-insertion command.

use vstd::prelude::*;

use crate::catalog::Product;

verus! {

/// The configuration the checkout handler needs from its environment.
#[derive(Debug, Clone)]
pub struct CheckoutConfig {
    pub database_url: String,
    pub lambda_token: String,
    pub lambda_url: String,
}

/// A missing piece of configuration.
#[derive(Debug, Clone, Copy, PartialEq, Eq)]
pub enum ConfigError {
    MissingDatabaseUrl,
    MissingLambdaToken,
    MissingLambdaUrl,
}

/// Assembles the checkout configuration from the values found in the
/// environment, in the order the handler reads them; the first missing
/// value is the error.
pub fn config_from_env(
    database_url: Option<String>,
    lambda_token: Option<String>,
    lambda_url: Option<String>,
) -> (r: Result<CheckoutConfig, ConfigError>)
    ensures
        database_url is None ==> r == Err::<CheckoutConfig, ConfigError>(
            ConfigError::MissingDatabaseUrl,
        ),
        database_url is Some && lambda_token is None ==> r == Err::<CheckoutConfig, ConfigError>(
            ConfigError::MissingLambdaToken,
        ),
        database_url is Some && lambda_token is Some && lambda_url is None ==> r == Err::<
            CheckoutConfig,
            ConfigError,
        >(ConfigError::MissingLambdaUrl),
        database_url is Some && lambda_token is Some && lambda_url is Some ==> (r matches Ok(c)
            && c.database_url == database_url.unwrap() && c.lambda_token == lambda_token.unwrap()
            && c.lambda_url == lambda_url.unwrap()),
{
    match (database_url, lambda_token, lambda_url) {
        (None, _, _) => Err(ConfigError::MissingDatabaseUrl),
        (Some(_), None, _) => Err(ConfigError::MissingLambdaToken),
        (Some(_), Some(_), None) => Err(ConfigError::MissingLambdaUrl),
        (Some(d), Some(t), Some(u)) => Ok(
            CheckoutConfig { database_url: d, lambda_token: t, lambda_url: u },
        ),
    }
}

/// The names of the products of `catalog` whose id occurs in `ids`, in
/// table order: one name per matching row, ids absent from the table
/// contributing nothing.
pub open spec fn resolved_names(catalog: Seq<Product>, ids: Seq<i32>) -> Seq<Seq<char>> {
    catalog.filter(|p: Product| ids.contains(p.id)).map_values(|p: Product| p.name@)
}

/// Whether `x` occurs in `ids`.
fn contains_id(ids: &Vec<i32>, x: i32) -> (b: bool)
    ensures
        b == ids@.contains(x),
{
    let mut i: usize = 0;
    while i < ids.len()
        invariant
            i <= ids@.len(),
            forall|j: int| 0 <= j < i ==> ids@[j] != x,
        decreases ids@.len() - i,
    {
        if ids[i] == x {
            return true;
        }
        i = i + 1;
    }
    false
}

/// Resolves the selected ids against the product table: the name of every
/// row whose id is among `ids`, in table order. Ids matching no row are
/// silently dropped; an id matching several rows yields one name per row.
pub fn resolve_names(catalog: &Vec<Product>, ids: &Vec<i32>) -> (names: Vec<String>)
    ensures
        names@.map_values(|s: String| s@) == resolved_names(catalog@, ids@),
{
    let ghost pred = |p: Product| ids@.contains(p.id);
    let mut names: Vec<String> = Vec::new();
    let mut i: usize = 0;
    proof {
        reveal(Seq::filter);
        assert(catalog@.take(0).filter(pred) =~= Seq::<Product>::empty());
        assert(names@.map_values(|s: String| s@) =~= resolved_names(catalog@.take(0), ids@));
    }
    while i < catalog.len()
        invariant
            i <= catalog@.len(),
            pred == (|p: Product| ids@.contains(p.id)),
            names@.map_values(|s: String| s@) == catalog@.take(i as int).filter(pred).map_values(
                |p: Product| p.name@,
            ),
        decreases catalog@.len() - i,
    {
        let ghost prev = names@;
        let p = &catalog[i];
        if contains_id(ids, p.id) {
            names.push(p.name.clone());
        }
        proof {
            let k = i as int;
            assert(catalog@.take(k + 1) =~= catalog@.take(k).push(catalog@[k]));
            catalog@.take(k).lemma_filter_push(catalog@[k], pred);
            if pred(catalog@[k]) {
                assert(names@.map_values(|s: String| s@) =~= prev.map_values(
                    |s: String| s@,
                ).push(catalog@[k].name@));
                assert(catalog@.take(k).filter(pred).push(catalog@[k]).map_values(
                    |p: Product| p.name@,
                ) =~= catalog@.take(k).filter(pred).map_values(|p: Product| p.name@).push(
                    catalog@[k].name@,
                ));
            }
        }
        i = i + 1;
    }
    proof {
        assert(catalog@.take(catalog@.len() as int) =~= catalog@);
    }
    names
}

/// Filtering a sequence with two predicates that agree on its elements
/// gives the same result.
proof fn lemma_filter_pred_agree<A>(s: Seq<A>, pa: spec_fn(A) -> bool, pb: spec_fn(A) -> bool)
    requires
        forall|i: int| 0 <= i < s.len() ==> pa(#[trigger] s[i]) == pb(s[i]),
    ensures
        s.filter(pa) == s.filter(pb),
    decreases s.len(),
{
    reveal(Seq::filter);
    if s.len() > 0 {
        assert forall|i: int| 0 <= i < s.drop_last().len() implies pa(
            #[trigger] s.drop_last()[i],
        ) == pb(s.drop_last()[i]) by {
            assert(s.drop_last()[i] == s[i]);
        }
        lemma_filter_pred_agree(s.drop_last(), pa, pb);
        assert(pa(s.last()) == pb(s.last())) by {
            assert(s.last() == s[s.len() - 1]);
        }
    }
}

/// Membership in a sequence extended by one element.
proof fn lemma_contains_push<A>(s: Seq<A>, v: A, x: A)
    ensures
        s.push(v).contains(x) <==> (s.contains(x) || x == v),
{
    if s.push(v).contains(x) {
        let i = choose|i: int| 0 <= i < s.push(v).len() && s.push(v)[i] == x;
        if i < s.len() {
            assert(s[i] == x);
        }
    }
    if s.contains(x) {
        let i = choose|i: int| 0 <= i < s.len() && s[i] == x;
        assert(s.push(v)[i] == x);
    }
    if x == v {
        assert(s.push(v)[s.len() as int] == x);
    }
}

/// Adding one fresh id to the selection splits the count of matching rows:
/// the rows matching the old selection, plus the rows carrying the new id.
proof fn lemma_filter_split_on_id(s: Seq<Product>, ids: Seq<i32>, v: i32)
    requires
        !ids.contains(v),
    ensures
        s.filter(|p: Product| ids.push(v).contains(p.id)).len() == s.filter(
            |p: Product| ids.contains(p.id),
        ).len() + s.filter(|p: Product| p.id == v).len(),
    decreases s.len(),
{
    reveal(Seq::filter);
    let p_all = |p: Product| ids.push(v).contains(p.id);
    let p_ids = |p: Product| ids.contains(p.id);
    let p_v = |p: Product| p.id == v;
    if s.len() > 0 {
        lemma_filter_split_on_id(s.drop_last(), ids, v);
        lemma_contains_push(ids, v, s.last().id);
        assert(p_all(s.last()) == (p_ids(s.last()) || p_v(s.last())));
    }
}

/// In a table whose rows carry pairwise distinct ids, exactly one row
/// matches an id that occurs in the table.
proof fn lemma_filter_unique_id_count(s: Seq<Product>, v: i32)
    requires
        forall|i: int, j: int| 0 <= i < j < s.len() ==> s[i].id != s[j].id,
        exists|k: int| 0 <= k < s.len() && s[k].id == v,
    ensures
        s.filter(|p: Product| p.id == v).len() == 1,
    decreases s.len(),
{
    reveal(Seq::filter);
    let p_v = |p: Product| p.id == v;
    let k = choose|k: int| 0 <= k < s.len() && s[k].id == v;
    if s.last().id == v {
        assert forall|i: int| 0 <= i < s.drop_last().len() implies !p_v(
            #[trigger] s.drop_last()[i],
        ) by {
            assert(s.drop_last()[i] == s[i]);
            assert(s[i].id != s[s.len() - 1].id);
        }
        s.drop_last().lemma_all_neg_filter_empty(p_v);
    } else {
        assert(k < s.len() - 1) by {
            assert(s.last() == s[s.len() - 1]);
        }
        assert(s.drop_last()[k] == s[k]);
        lemma_filter_unique_id_count(s.drop_last(), v);
    }
}

/// When the table's ids are pairwise distinct and every selected id (itself
/// without repetition) matches a row of the table, the resolution yields
/// exactly one name per selected id. Repetition in the selection breaks
/// this: against a one-row table, the selection made of that row's id twice
/// still resolves to a single name.
pub proof fn lemma_all_matched_resolve_count(catalog: Seq<Product>, ids: Seq<i32>)
    requires
        forall|i: int, j: int| 0 <= i < j < catalog.len() ==> catalog[i].id != catalog[j].id,
        forall|i: int, j: int| 0 <= i < j < ids.len() ==> ids[i] != ids[j],
        forall|i: int|
            0 <= i < ids.len() ==> exists|k: int|
                0 <= k < catalog.len() && catalog[k].id == #[trigger] ids[i],
    ensures
        resolved_names(catalog, ids).len() == ids.len(),
    decreases ids.len(),
{
    reveal(Seq::filter);
    if ids.len() == 0 {
        let p_ids = |p: Product| ids.contains(p.id);
        assert forall|i: int| 0 <= i < catalog.len() implies !p_ids(#[trigger] catalog[i]) by {
            assert(!ids.contains(catalog[i].id));
        }
        catalog.lemma_all_neg_filter_empty(p_ids);
    } else {
        let front = ids.drop_last();
        let v = ids.last();
        assert(v == ids[ids.len() - 1]);
        assert(!front.contains(v)) by {
            assert forall|i: int| 0 <= i < front.len() implies front[i] != v by {
                assert(front[i] == ids[i]);
            }
        }
        assert(ids =~= front.push(v));
        assert forall|i: int| 0 <= i < catalog.len() implies (|p: Product| ids.contains(p.id))(
            #[trigger] catalog[i],
        ) == (|p: Product| front.push(v).contains(p.id))(catalog[i]) by {
            assert(ids == front.push(v));
        }
        lemma_filter_pred_agree(
            catalog,
            |p: Product| ids.contains(p.id),
            |p: Product| front.push(v).contains(p.id),
        );
        lemma_filter_split_on_id(catalog, front, v);
        assert forall|i: int| 0 <= i < front.len() implies exists|k: int|
            0 <= k < catalog.len() && catalog[k].id == #[trigger] front[i] by {
            assert(front[i] == ids[i]);
        }
        lemma_all_matched_resolve_count(catalog, front);
        lemma_filter_unique_id_count(catalog, v);
    }
}

/// An id that matches no row of the table contributes nothing: appending it
/// to the selection leaves the resolved names unchanged.
pub proof fn lemma_unmatched_id_excluded(catalog: Seq<Product>, ids: Seq<i32>, missing: i32)
    requires
        forall|k: int| 0 <= k < catalog.len() ==> (#[trigger] catalog[k]).id != missing,
    ensures
        resolved_names(catalog, ids.push(missing)) == resolved_names(catalog, ids),
{
    let ids2 = ids.push(missing);
    assert forall|i: int| 0 <= i < catalog.len() implies (|p: Product| ids2.contains(p.id))(
        #[trigger] catalog[i],
    ) == (|p: Product| ids.contains(p.id))(catalog[i]) by {
        lemma_contains_push(ids, missing, catalog[i].id);
    }
    lemma_filter_pred_agree(
        catalog,
        |p: Product| ids2.contains(p.id),
        |p: Product| ids.contains(p.id),
    );
}

/// The payload submitted to the external interaction-checking service: the
/// resolved product names, under its `medications` field.
pub struct InteractionPayload {
    pub medications: Vec<String>,
}

/// Wraps the resolved names as the payload for the external service.
pub fn build_payload(names: Vec<String>) -> (payload: InteractionPayload)
    ensures
        payload.medications == names,
{
    InteractionPayload { medications: names }
}

/// The external service's answer: a message, and interaction groups when
/// the selection conflicts. A present (non-null) `interactions` field is
/// what signals a blocking conflict.
pub struct InteractionResponse {
    pub message: String,
    pub interactions: Option<Vec<Vec<String>>>,
}

/// A detected interaction conflict, returned to the caller with the
/// service's message and the conflicting groups.
#[derive(Debug, Clone, PartialEq, Eq)]
pub struct InteractionError {
    pub message: String,
    pub interactions: Vec<Vec<String>>,
}

/// A command for the store worker; checkout only ever enqueues the
/// insertion of an order naming the purchased products.
#[derive(Debug, Clone, PartialEq, Eq)]
pub enum DatabaseCommand {
    Insert(Vec<String>),
}

/// Decides the outcome of a checkout from the external service's response:
/// a present `interactions` field is a blocking conflict, returned to the
/// caller with nothing enqueued; otherwise exactly one order-insertion
/// command carrying the resolved names is enqueued and the checkout
/// succeeds. An insertion is enqueued if and only if the service reported
/// no interactions.
pub fn checkout_step(
    names: Vec<String>,
    response: InteractionResponse,
    queue: &mut Vec<DatabaseCommand>,
) -> (r: Result<bool, InteractionError>)
    ensures
        response.interactions is Some ==> {
            &&& r matches Err(e) && e.message == response.message && e.interactions
                == response.interactions.unwrap()
            &&& final(queue)@ == old(queue)@
        },
        response.interactions is None ==> {
            &&& r == Ok::<bool, InteractionError>(true)
            &&& final(queue)@ == old(queue)@.push(DatabaseCommand::Insert(names))
        },
{
    let InteractionResponse { message, interactions } = response;
    match interactions {
        Some(groups) => Err(InteractionError { message, interactions: groups }),
        None => {
            queue.push(DatabaseCommand::Insert(names));
            Ok(true)
        },
    }
}

} // verus!
