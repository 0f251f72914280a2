//! The registry of parsed modules a translation unit contributes to.
//!
//! The surface grammar is an external collaborator: it turns flattened
//! source text into the `ast::TranslationUnit` this registry consumes.
//! Registration enforces one module per name across everything parsed so
//! far, and a unit with a duplicate name is rejected whole: no module of a
//! rejected unit is registered.

use vstd::prelude::*;
use crate::ast;
use crate::error::ElabError;

verus! {

/// Whether the module names of `fresh`, appended after `held`, leave every
/// name registered at most once.
pub open spec fn names_disjoint(held: Seq<ast::Module>, fresh: Seq<ast::Module>) -> bool {
    &&& forall|i: int, j: int|
        0 <= i < j < fresh.len() ==> (#[trigger] fresh[i].name.0)@ != (#[trigger] fresh[j].name.0)@
    &&& forall|i: int, j: int|
        0 <= i < held.len() && 0 <= j < fresh.len() ==> (#[trigger] held[i].name.0)@ != (
        #[trigger] fresh[j].name.0)@
}

pub struct Parser {
    pub modules: Vec<ast::Module>,
}

impl Parser {
    pub fn new() -> (r: Parser)
        ensures
            r.modules@.len() == 0,
    {
        Parser { modules: Vec::new() }
    }

    /// Registers every module of a parsed unit, in order. If any module's
    /// name is already registered, or occurs twice within the unit, the
    /// whole unit is rejected with `DuplicateModule` and the registry is
    /// left unchanged.
    pub fn parse(&mut self, unit: ast::TranslationUnit) -> (r: Result<(), ElabError>)
        ensures
            r is Ok <==> names_disjoint(old(self).modules@, unit.modules@),
            r is Ok ==> final(self).modules@ == old(self).modules@ + unit.modules@,
            r is Err ==> *final(self) == *old(self) && (r matches Err(e) && e matches
                ElabError::DuplicateModule { name }),
            r matches Err(ElabError::DuplicateModule { name }) ==> (exists|j: int|
                0 <= j < unit.modules@.len() && ((#[trigger] unit.modules@[j].name.0)@ == name@ && (
                (exists|k: int|
                    0 <= k < old(self).modules@.len() && ((#[trigger] old(
                        self,
                    ).modules@[k].name.0)@ == name@)) || (exists|i2: int|
                    0 <= i2 < j && ((#[trigger] unit.modules@[i2].name.0)@ == name@))))),
    {
        let n = unit.modules.len();
        let mut i: usize = 0;
        while i < n
            invariant
                *self == *old(self),
                n == unit.modules@.len(),
                i <= n,
                forall|i2: int, j2: int|
                    0 <= i2 < j2 < i ==> (#[trigger] unit.modules@[i2].name.0)@ != (
                    #[trigger] unit.modules@[j2].name.0)@,
                forall|i2: int, j2: int|
                    0 <= i2 < self.modules@.len() && 0 <= j2 < i ==> (
                    #[trigger] self.modules@[i2].name.0)@ != (#[trigger] unit.modules@[j2].name.0)@,
            decreases n - i,
        {
            let name = &unit.modules[i].name.0;
            let mut k: usize = 0;
            while k < self.modules.len()
                invariant
                    *self == *old(self),
                    i < n,
                    n == unit.modules@.len(),
                    k <= self.modules@.len(),
                    name == unit.modules@[i as int].name.0,
                    forall|k2: int|
                        0 <= k2 < k ==> (#[trigger] self.modules@[k2].name.0)@ != name@,
                decreases self.modules@.len() - k,
            {
                if self.modules[k].name.0 == *name {
                    proof {
                        assert((self.modules@[k as int].name.0)@ == name@);
                        assert((unit.modules@[i as int].name.0)@ == name@);
                    }
                    return Err(ElabError::DuplicateModule { name: name.clone() });
                }
                k = k + 1;
            }
            let mut j: usize = 0;
            while j < i
                invariant
                    *self == *old(self),
                    i < n,
                    n == unit.modules@.len(),
                    j <= i,
                    name == unit.modules@[i as int].name.0,
                    forall|j2: int|
                        0 <= j2 < j ==> (#[trigger] unit.modules@[j2].name.0)@ != name@,
                decreases i - j,
            {
                if unit.modules[j].name.0 == *name {
                    proof {
                        assert((unit.modules@[j as int].name.0)@ == name@);
                        assert((unit.modules@[i as int].name.0)@ == name@);
                    }
                    return Err(ElabError::DuplicateModule { name: name.clone() });
                }
                j = j + 1;
            }
            i = i + 1;
        }
        let ghost held = self.modules@;
        let ghost fresh = unit.modules@;
        let mut unit = unit;
        while unit.modules.len() > 0
            invariant
                self.modules@.len() + unit.modules@.len() == held.len() + fresh.len(),
                self.modules@ == held + fresh.take(self.modules@.len() - held.len()),
                held.len() <= self.modules@.len(),
                unit.modules@ == fresh.skip(self.modules@.len() - held.len()),
            decreases unit.modules@.len(),
        {
            let m = unit.modules.remove(0);
            self.modules.push(m);
            proof {
                assert(self.modules@ =~= held + fresh.take(self.modules@.len() - held.len()));
                assert(unit.modules@ =~= fresh.skip(self.modules@.len() - held.len()));
            }
        }
        proof {
            assert(self.modules@ =~= held + fresh);
        }
        Ok(())
    }

    /// The modules registered so far, in registration order.
    pub fn modules(&self) -> (r: &Vec<ast::Module>)
        ensures
            r == &self.modules,
    {
        &self.modules
    }
}

} // verus!
