//! Route keys of the query service and of the wallet's web API, and the
//! typed values of URL segments.
use vstd::prelude::*;

verus! {

/// `s` equals the string literal `lit`.
pub(crate) fn str_is(s: &str, lit: &str) -> (r: bool)
    ensures
        r == (s@ == lit@),
{
    let a = s.to_owned();
    let b = lit.to_owned();
    a == b
}

/// The routes of the query service.
#[allow(non_camel_case_types)]
#[derive(Clone, Copy, Debug, PartialEq, Eq, Structural)]
pub enum ApiRouteKey {
    get_cap_state,
    get_all_nullifiers,
    check_nullifier,
    get_events_since,
    get_transaction,
}

impl ApiRouteKey {
    pub open spec fn name(self) -> Seq<char> {
        match self {
            ApiRouteKey::get_cap_state => "get_cap_state"@,
            ApiRouteKey::get_all_nullifiers => "get_all_nullifiers"@,
            ApiRouteKey::check_nullifier => "check_nullifier"@,
            ApiRouteKey::get_events_since => "get_events_since"@,
            ApiRouteKey::get_transaction => "get_transaction"@,
        }
    }

    pub fn as_str(&self) -> (r: &'static str)
        ensures
            r@ == self.name(),
    {
        match self {
            ApiRouteKey::get_cap_state => "get_cap_state",
            ApiRouteKey::get_all_nullifiers => "get_all_nullifiers",
            ApiRouteKey::check_nullifier => "check_nullifier",
            ApiRouteKey::get_events_since => "get_events_since",
            ApiRouteKey::get_transaction => "get_transaction",
        }
    }

    /// The key named `s`, if any.
    pub fn from_str(s: &str) -> (r: Option<ApiRouteKey>)
        ensures
            r matches Some(k) ==> s@ == k.name(),
            r is None ==> forall|k: ApiRouteKey| s@ != #[trigger] k.name(),
    {
        if str_is(s, "get_cap_state") {
            Some(ApiRouteKey::get_cap_state)
        } else if str_is(s, "get_all_nullifiers") {
            Some(ApiRouteKey::get_all_nullifiers)
        } else if str_is(s, "check_nullifier") {
            Some(ApiRouteKey::check_nullifier)
        } else if str_is(s, "get_events_since") {
            Some(ApiRouteKey::get_events_since)
        } else if str_is(s, "get_transaction") {
            Some(ApiRouteKey::get_transaction)
        } else {
            assert forall|k: ApiRouteKey| s@ != #[trigger] k.name() by {
                match k {
                    ApiRouteKey::get_cap_state => {},
                    ApiRouteKey::get_all_nullifiers => {},
                    ApiRouteKey::check_nullifier => {},
                    ApiRouteKey::get_events_since => {},
                    ApiRouteKey::get_transaction => {},
                }
            }
            None
        }
    }

    /// Every key, in declaration order.
    pub fn all() -> (r: Vec<ApiRouteKey>)
        ensures
            r@ == seq![
                ApiRouteKey::get_cap_state,
                ApiRouteKey::get_all_nullifiers,
                ApiRouteKey::check_nullifier,
                ApiRouteKey::get_events_since,
                ApiRouteKey::get_transaction,
            ],
    {
        let mut v: Vec<ApiRouteKey> = Vec::new();
        v.push(ApiRouteKey::get_cap_state);
        v.push(ApiRouteKey::get_all_nullifiers);
        v.push(ApiRouteKey::check_nullifier);
        v.push(ApiRouteKey::get_events_since);
        v.push(ApiRouteKey::get_transaction);
        assert(v@ =~= seq![
            ApiRouteKey::get_cap_state,
            ApiRouteKey::get_all_nullifiers,
            ApiRouteKey::check_nullifier,
            ApiRouteKey::get_events_since,
            ApiRouteKey::get_transaction,
        ]);
        v
    }
}

/// Some element of `defined` is the name `name`.
pub open spec fn is_defined(defined: Seq<String>, name: Seq<char>) -> bool {
    exists|i: int| 0 <= i < defined.len() && (#[trigger] defined[i])@ == name
}

/// The names of `names` that are not in `defined`, in order.
pub fn missing_routes(names: &Vec<String>, defined: &Vec<String>) -> (r: Vec<String>)
    ensures
        forall|x: Seq<char>| #[trigger] is_defined(r@, x) <==> (is_defined(names@, x) && !is_defined(defined@, x)),
{
    let mut missing: Vec<String> = Vec::new();
    let mut i: usize = 0;
    while i < names.len()
        invariant
            i <= names@.len(),
            forall|x: Seq<char>| #[trigger] is_defined(missing@, x) <==> (is_defined(names@.subrange(0, i as int), x) && !is_defined(defined@, x)),
        decreases names@.len() - i,
    {
        let name = names[i].as_str();
        let mut found = false;
        let mut j: usize = 0;
        while j < defined.len()
            invariant
                i < names@.len(),
                forall|x: Seq<char>| #[trigger] is_defined(missing@, x) <==> (is_defined(names@.subrange(0, i as int), x) && !is_defined(defined@, x)),
                j <= defined@.len(),
                name@ == names@[i as int]@,
                found <==> exists|q: int| 0 <= q < j && (#[trigger] defined@[q])@ == name@,
            decreases defined@.len() - j,
        {
            if str_is(defined[j].as_str(), name) {
                found = true;
            }
            j = j + 1;
        }
        let ghost before = missing@;
        let ghost pre = names@.subrange(0, i as int);
        let ghost post = names@.subrange(0, i + 1);
        if !found {
            missing.push(names[i].clone());
        }
        proof {
            let k = names@[i as int]@;
            assert(post[i as int] == names@[i as int]);
            assert(found == is_defined(defined@, k));
            assert forall|x: Seq<char>| #[trigger] is_defined(missing@, x) <==> (is_defined(post, x) && !is_defined(defined@, x)) by {
                if is_defined(missing@, x) {
                    let q = choose|q: int| 0 <= q < missing@.len() && (#[trigger] missing@[q])@ == x;
                    if q < before.len() {
                        assert(before[q] == missing@[q]);
                        assert(is_defined(before, x));
                        let p = choose|p: int| 0 <= p < pre.len() && (#[trigger] pre[p])@ == x;
                        assert(post[p] == pre[p]);
                    } else {
                        assert(x == k);
                    }
                }
                if is_defined(post, x) && !is_defined(defined@, x) {
                    let p = choose|p: int| 0 <= p < post.len() && (#[trigger] post[p])@ == x;
                    if p < i {
                        assert(pre[p] == post[p]);
                        assert(is_defined(pre, x));
                        assert(is_defined(before, x));
                        let q = choose|q: int| 0 <= q < before.len() && (#[trigger] before[q])@ == x;
                        assert(missing@[q] == before[q]);
                    } else {
                        assert(x == k);
                        assert(missing@[before.len() as int]@ == x);
                    }
                }
            }
        }
        i = i + 1;
    }
    assert(names@.subrange(0, i as int) =~= names@);
    missing
}

} // verus!
