//! Sets of codes.
use std::collections::HashSet;
use vstd::prelude::*;
use vstd::utf8::encode_utf8;

use crate::base62;

verus! {

/// A set of codes. A code is kept as the number that it stands for.
pub struct CodeSet {
    ids: HashSet<u64>,
}

impl View for CodeSet {
    type V = Set<Seq<u8>>;

    closed spec fn view(&self) -> Set<Seq<u8>> {
        Set::new(
            |code: Seq<u8>|
                base62::canonical(code) && self.ids@.contains(base62::decoding(code).unwrap()),
        )
    }
}

impl CodeSet {
    /// No code.
    pub fn new() -> (res: CodeSet)
        ensures
            res@ == Set::<Seq<u8>>::empty(),
    {
        broadcast use vstd::std_specs::hash::group_hash_axioms;

        let res = CodeSet { ids: HashSet::new() };
        assert(res@ =~= Set::<Seq<u8>>::empty());
        res
    }

    /// Adds a code, and says whether it is new. What cannot be a code is not
    /// added.
    pub fn insert(&mut self, code: &str) -> (res: bool)
        ensures
            res == (base62::canonical(encode_utf8(code@)) && !old(self)@.contains(
                encode_utf8(code@),
            )),
            base62::canonical(encode_utf8(code@)) ==> final(self)@ == old(self)@.insert(
                encode_utf8(code@),
            ),
            !base62::canonical(encode_utf8(code@)) ==> final(self)@ == old(self)@,
    {
        broadcast use vstd::std_specs::hash::group_hash_axioms;

        match base62::read_code(code.as_bytes()) {
            None => false,
            Some(id) => {
                let added = self.ids.insert(id);
                proof {
                    let bytes = encode_utf8(code@);
                    assert forall|other: Seq<u8>|
                        base62::canonical(other) && base62::decoding(other) == Some(
                            id,
                        ) implies other == bytes by {
                        base62::law_canonical(other);
                        base62::law_canonical(bytes);
                    }
                    assert(self@ =~= old(self)@.insert(bytes));
                }
                added
            },
        }
    }
}

} // verus!
