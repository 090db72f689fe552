//! Picking the shoes of one size out of a store.
use vstd::prelude::*;

verus! {

pub struct Shoe {
    pub name: String,
    pub size: u32,
}

pub open spec fn of_size(size: u32) -> spec_fn(Shoe) -> bool {
    |s: Shoe| s.size == size
}

/// The shoes of `shoe_size`, in the order the store holds them.
pub fn specific_shoe_size(shoe_store: Vec<Shoe>, shoe_size: u32) -> (shoes: Vec<Shoe>)
    ensures
        shoes@ == shoe_store@.filter(of_size(shoe_size)),
{
    let ghost orig = shoe_store@;
    let mut store = shoe_store;
    let mut shoes: Vec<Shoe> = Vec::new();
    while store.len() > 0
        invariant
            shoes@ + store@.filter(of_size(shoe_size)) == orig.filter(of_size(shoe_size)),
        decreases store@.len(),
    {
        let ghost before = store@;
        let shoe = store.remove(0);
        proof {
            assert(before =~= seq![shoe] + store@);
            store@.lemma_filter_prepend(shoe, of_size(shoe_size));
        }
        if shoe.size == shoe_size {
            proof {
                assert(shoes@.push(shoe) + store@.filter(of_size(shoe_size)) =~= shoes@ + (seq![shoe]
                    + store@.filter(of_size(shoe_size))));
            }
            shoes.push(shoe);
        } else {
            proof {
                assert(Seq::<Shoe>::empty() + store@.filter(of_size(shoe_size)) =~= store@.filter(
                    of_size(shoe_size),
                ));
            }
        }
    }
    proof {
        reveal(Seq::filter);
        assert(store@.filter(of_size(shoe_size)) =~= Seq::<Shoe>::empty());
        assert(shoes@ + Seq::<Shoe>::empty() =~= shoes@);
    }
    shoes
}

} // verus!
