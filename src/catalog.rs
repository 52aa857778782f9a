//! The catalog of quotes loaded at startup, and selection from it.
use vstd::prelude::*;

verus! {

/// A quotation: who said it, and what.
#[derive(Clone, Debug)]
pub struct Quote {
    pub author: String,
    pub text: String,
}

/// Why a list of quotes cannot become a catalog.
#[derive(Clone, Copy, Debug, PartialEq, Eq)]
pub enum LoadError {
    /// There are no quotes at all.
    Empty,
    /// The quote at this index has no author.
    MissingAuthor { index: usize },
}

/// A non-empty, read-only list of quotes, each with an author.
pub struct Catalog {
    quotes: Vec<Quote>,
}

/// Every quote in `quotes` has an author.
pub open spec fn all_authored(quotes: Seq<Quote>) -> bool {
    forall|i: int| 0 <= i < quotes.len() ==> (#[trigger] quotes[i]).author@.len() > 0
}

/// Relies on `rand::random::<usize>`: a value drawn from the thread-local
/// generator. Nothing is known of which.
#[verifier::external_body]
fn random_usize() -> (r: usize) {
    rand::random::<usize>()
}

impl Catalog {
    /// The quotes, in the order they were loaded.
    pub closed spec fn quotes(&self) -> Seq<Quote> {
        self.quotes@
    }

    pub open spec fn wf(&self) -> bool {
        self.quotes().len() > 0 && all_authored(self.quotes())
    }

    /// The index that a random value `random` selects.
    pub open spec fn index_for(&self, random: usize) -> int {
        random as int % self.quotes().len() as int
    }

    /// Makes a catalog of `quotes`. Fails with `Empty` when there are none,
    /// and otherwise with `MissingAuthor` at the first quote without an author.
    pub fn load(quotes: Vec<Quote>) -> (r: Result<Catalog, LoadError>)
        ensures
            quotes@.len() == 0 ==> r == Err::<Catalog, LoadError>(LoadError::Empty),
            quotes@.len() > 0 && all_authored(quotes@) ==> (r matches Ok(c) && c.quotes() == quotes@),
            quotes@.len() > 0 && !all_authored(quotes@) ==> (r matches Err(
                LoadError::MissingAuthor { index },
            ) && index < quotes@.len() && quotes@[index as int].author@.len() == 0 && all_authored(
                quotes@.subrange(0, index as int),
            )),
            r matches Ok(c) ==> c.wf(),
    {
        if quotes.len() == 0 {
            return Err(LoadError::Empty);
        }
        let mut i: usize = 0;
        while i < quotes.len()
            invariant
                i <= quotes@.len(),
                all_authored(quotes@.subrange(0, i as int)),
            decreases quotes@.len() - i,
        {
            if quotes[i].author.as_str().is_empty() {
                proof {
                    assert(!all_authored(quotes@)) by {
                        assert(quotes@[i as int].author@.len() == 0);
                    }
                }
                return Err(LoadError::MissingAuthor { index: i });
            }
            proof {
                assert forall|j: int| 0 <= j < i + 1 implies (#[trigger] quotes@.subrange(0, i + 1)[j]).author@.len() > 0 by {
                    if j < i {
                        assert(quotes@.subrange(0, i + 1)[j] == quotes@.subrange(0, i as int)[j]);
                    }
                }
            }
            i = i + 1;
        }
        proof {
            assert(quotes@.subrange(0, quotes@.len() as int) =~= quotes@);
        }
        Ok(Catalog { quotes })
    }

    /// How many quotes there are.
    pub fn len(&self) -> (r: usize)
        ensures
            r == self.quotes().len(),
    {
        self.quotes.len()
    }

    /// The quote at `index`.
    pub fn get(&self, index: usize) -> (r: &Quote)
        requires
            index < self.quotes().len(),
        ensures
            *r == self.quotes()[index as int],
    {
        &self.quotes[index]
    }

    /// The index that the random value `random` selects: always one of the
    /// catalog's.
    pub fn pick_index(&self, random: usize) -> (r: usize)
        requires
            self.wf(),
        ensures
            r == self.index_for(random),
            r < self.quotes().len(),
    {
        random % self.quotes.len()
    }

    /// The quote that the random value `random` selects.
    pub fn pick(&self, random: usize) -> (r: &Quote)
        requires
            self.wf(),
        ensures
            *r == self.quotes()[self.index_for(random)],
    {
        let i = self.pick_index(random);
        &self.quotes[i]
    }

    /// A quote drawn at random: one of the catalog's.
    pub fn pick_random(&self) -> (r: &Quote)
        requires
            self.wf(),
        ensures
            exists|i: int| 0 <= i < self.quotes().len() && *r == self.quotes()[i],
    {
        let random = random_usize();
        self.pick(random)
    }
}

/// Selection starves no quote: every index of a catalog is the one that some
/// random value selects.
pub proof fn lemma_every_quote_selectable(c: &Catalog, i: usize)
    requires
        c.wf(),
        i < c.quotes().len(),
    ensures
        c.index_for(i) == i,
{
    vstd::arithmetic::div_mod::lemma_small_mod(i as nat, c.quotes().len());
}

} // verus!
