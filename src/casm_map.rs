//! Inverts the compiler's statement-to-instruction table: each assembled
//! instruction index is mapped to the statements whose code starts there.

use std::collections::HashMap;
use vstd::prelude::*;

verus! {

broadcast use vstd::std_specs::hash::group_hash_axioms;

/// The indices `i < n`, in increasing order, of the statements whose code
/// starts at absolute instruction `key`, that is with `offsets[i] + header_len == key`.
pub open spec fn statements_at(offsets: Seq<usize>, header_len: nat, key: nat, n: nat) -> Seq<usize>
    decreases n,
{
    if n == 0 {
        Seq::empty()
    } else {
        let before = statements_at(offsets, header_len, key, (n - 1) as nat);
        if offsets[n - 1] + header_len == key {
            before.push((n - 1) as usize)
        } else {
            before
        }
    }
}

/// Whether `map` is the inversion of `offsets` shifted by `header_len`: its keys
/// are the shifted offsets, and each key holds, in increasing order, the
/// indices of the statements that start there.
pub open spec fn is_instruction_to_statement_map(
    map: Map<usize, Vec<usize>>,
    offsets: Seq<usize>,
    header_len: nat,
) -> bool {
    &&& forall|k: usize|
        #[trigger] map.contains_key(k) <==> exists|i: int|
            0 <= i < offsets.len() && offsets[i] + header_len == k
    &&& forall|k: usize|
        #[trigger] map.contains_key(k) ==> map[k]@ == statements_at(
            offsets,
            header_len,
            k as nat,
            offsets.len(),
        )
}

proof fn lemma_statements_at_empty_iff(offsets: Seq<usize>, header_len: nat, key: nat, n: nat)
    requires
        n <= offsets.len(),
    ensures
        statements_at(offsets, header_len, key, n).len() == 0 <==> forall|i: int|
            0 <= i < n ==> offsets[i] + header_len != key,
    decreases n,
{
    if n > 0 {
        lemma_statements_at_empty_iff(offsets, header_len, key, (n - 1) as nat);
    }
}

/// Builds the map from absolute assembled-instruction index to the indices of
/// the statements whose code begins there. `statement_offsets[i]` is where
/// statement `i` begins, counted after a header of `casm_headers_len` instructions.
pub fn make_casm_to_sierra_map(statement_offsets: &Vec<usize>, casm_headers_len: usize) -> (r:
    HashMap<usize, Vec<usize>>)
    requires
        forall|i: int|
            0 <= i < statement_offsets.len() ==> statement_offsets[i] + casm_headers_len
                <= usize::MAX,
    ensures
        is_instruction_to_statement_map(r@, statement_offsets@, casm_headers_len as nat),
{
    let mut map: HashMap<usize, Vec<usize>> = HashMap::new();
    let n = statement_offsets.len();
    let mut i: usize = 0;
    while i < n
        invariant
            n == statement_offsets.len(),
            i <= n,
            forall|j: int|
                0 <= j < n ==> statement_offsets[j] + casm_headers_len <= usize::MAX,
            forall|k: usize|
                #[trigger] map@.contains_key(k) <==> statements_at(
                    statement_offsets@,
                    casm_headers_len as nat,
                    k as nat,
                    i as nat,
                ).len() > 0,
            forall|k: usize|
                #[trigger] map@.contains_key(k) ==> map@[k]@ == statements_at(
                    statement_offsets@,
                    casm_headers_len as nat,
                    k as nat,
                    i as nat,
                ),
        decreases n - i,
    {
        let key = statement_offsets[i] + casm_headers_len;
        let mut statements = match map.remove(&key) {
            Some(v) => v,
            None => Vec::new(),
        };
        statements.push(i);
        map.insert(key, statements);
        i = i + 1;
        assert forall|k: usize| #[trigger] map@.contains_key(k) <==> statements_at(
            statement_offsets@,
            casm_headers_len as nat,
            k as nat,
            i as nat,
        ).len() > 0 by {
            if k != key {
                assert(statements_at(statement_offsets@, casm_headers_len as nat, k as nat, i as nat)
                    == statements_at(
                    statement_offsets@,
                    casm_headers_len as nat,
                    k as nat,
                    (i - 1) as nat,
                ));
            }
        }
    }
    proof {
        assert forall|k: usize| #[trigger] map@.contains_key(k) <==> exists|j: int|
            0 <= j < n && statement_offsets[j] + casm_headers_len == k by {
            lemma_statements_at_empty_iff(
                statement_offsets@,
                casm_headers_len as nat,
                k as nat,
                n as nat,
            );
        }
    }
    map
}

} // verus!
