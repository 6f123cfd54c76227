//! DID documents, as far as keys and service endpoints are read from them.
use vstd::prelude::*;

use crate::text;

verus! {

/// A key that a DID document lists.
#[derive(Debug)]
pub struct VerificationMethod {
    pub id: String,
    pub public_key_multibase: Option<String>,
}

/// A service that a DID document lists.
#[derive(Debug)]
pub struct DidService {
    pub id: String,
    pub service_endpoint: String,
}

/// A DID document.
#[derive(Debug)]
pub struct DidDocument {
    pub verification_method: Vec<VerificationMethod>,
    pub service: Vec<DidService>,
}

/// The index of the first key whose id ends with a fragment.
pub open spec fn method_index(methods: Seq<VerificationMethod>, fragment: Seq<char>) -> Option<int>
    decreases methods.len(),
{
    if methods.len() == 0 {
        None
    } else {
        match method_index(methods.drop_last(), fragment) {
            Some(i) => Some(i),
            None => if text::has_suffix(methods.last().id@, fragment) {
                Some(methods.len() - 1)
            } else {
                None
            },
        }
    }
}

/// The first key with a fragment is in the document, and has it.
pub proof fn lemma_method_index(methods: Seq<VerificationMethod>, fragment: Seq<char>)
    ensures
        method_index(methods, fragment) matches Some(i) ==> 0 <= i < methods.len() && text::has_suffix(
            methods[i].id@,
            fragment,
        ),
        method_index(methods, fragment) is None ==> forall|i: int|
            0 <= i < methods.len() ==> !text::has_suffix((#[trigger] methods[i]).id@, fragment),
    decreases methods.len(),
{
    if methods.len() > 0 {
        lemma_method_index(methods.drop_last(), fragment);
        assert forall|i: int| 0 <= i < methods.len() - 1 implies methods.drop_last()[i] == methods[i] by {}
        if method_index(methods, fragment) is None {
            assert forall|i: int| 0 <= i < methods.len() implies !text::has_suffix(
                (#[trigger] methods[i]).id@,
                fragment,
            ) by {
                if i < methods.len() - 1 {
                    assert(methods.drop_last()[i] == methods[i]);
                }
            }
        }
    }
}

proof fn lemma_method_index_prefix(methods: Seq<VerificationMethod>, n: int, fragment: Seq<char>)
    requires
        0 <= n <= methods.len(),
        method_index(methods.take(n), fragment) is Some,
    ensures
        method_index(methods, fragment) == method_index(methods.take(n), fragment),
    decreases methods.len() - n,
{
    if n < methods.len() {
        assert(methods.take(n + 1).drop_last() =~= methods.take(n));
        lemma_method_index_prefix(methods, n + 1, fragment);
    } else {
        assert(methods.take(n) =~= methods);
    }
}

/// The first key whose id ends with a fragment.
pub fn find_method<'a>(methods: &'a Vec<VerificationMethod>, fragment: &str) -> (found: Option<
    &'a VerificationMethod,
>)
    ensures
        match found {
            Some(m) => method_index(methods@, fragment@) matches Some(i) && *m == methods@[i],
            None => method_index(methods@, fragment@) is None,
        },
{
    for i in 0..methods.len()
        invariant
            method_index(methods@.take(i as int), fragment@) is None,
    {
        assert(methods@.take(i + 1).drop_last() =~= methods@.take(i as int));
        if text::ends_with(methods[i].id.as_str(), fragment) {
            proof {
                lemma_method_index_prefix(methods@, i + 1, fragment@);
            }
            return Some(&methods[i]);
        }
    }
    assert(methods@.take(methods@.len() as int) =~= methods@);
    None
}

/// The key that is found for a fragment is the first that has it, and none is found
/// just if none has it.
pub proof fn law_the_first_key_with_a_fragment_is_found(
    methods: Seq<VerificationMethod>,
    fragment: Seq<char>,
)
    ensures
        method_index(methods, fragment) matches Some(i) ==> 0 <= i < methods.len() && text::has_suffix(
            methods[i].id@,
            fragment,
        ) && forall|j: int| 0 <= j < i ==> !text::has_suffix((#[trigger] methods[j]).id@, fragment),
        method_index(methods, fragment) is None <==> forall|i: int|
            0 <= i < methods.len() ==> !text::has_suffix((#[trigger] methods[i]).id@, fragment),
    decreases methods.len(),
{
    lemma_method_index(methods, fragment);
    if methods.len() > 0 {
        let head = methods.drop_last();
        law_the_first_key_with_a_fragment_is_found(head, fragment);
        lemma_method_index(head, fragment);
        assert forall|j: int| 0 <= j < head.len() implies head[j] == methods[j] by {}
        if let Some(i) = method_index(methods, fragment) {
            assert forall|j: int| 0 <= j < i implies !text::has_suffix(
                (#[trigger] methods[j]).id@,
                fragment,
            ) by {
                assert(!text::has_suffix(head[j].id@, fragment));
            }
        }
    }
}

} // verus!
