//! The entity capability: a storable record type with an identity field and
//! a static policy saying whether ids are caller-supplied or
//! engine-generated.

use vstd::prelude::*;

use crate::gen_query::ExprEntity;
use crate::id::IdType;
use crate::storable::Storable;

verus! {

/// A record type the database can manage.
///
/// `vid` reads the identity off a model and `with_vid` replaces it, leaving
/// the rest of the record alone; the executable accessors are bound to them.
/// `spec_generate_id` is the id policy: `true` routes every store through
/// `IdType::generate`, `false` keeps caller-supplied ids and refuses
/// duplicates.
pub trait Entity: Storable {
    /// The identity type.
    type Id: IdType;

    /// The capability object handed to a filter predicate, with one typed
    /// accessor per field.
    type ExprBase: ExprEntity;

    /// Whether ids are engine-generated.
    spec fn spec_generate_id() -> bool;

    /// The id of a record's model.
    spec fn vid(m: <Self as DeepView>::V) -> Self::Id;

    /// A record's model with its id replaced.
    spec fn with_vid(m: <Self as DeepView>::V, id: Self::Id) -> <Self as DeepView>::V;

    /// Replacing the id sets exactly the id.
    proof fn lemma_with_vid(m: <Self as DeepView>::V, id: Self::Id)
        ensures
            Self::vid(Self::with_vid(m, id)) == id,
    ;

    /// Whether ids are engine-generated.
    fn generate_id() -> (r: bool)
        ensures
            r == Self::spec_generate_id(),
    ;

    /// This record's id.
    fn get_id(&self) -> (r: Self::Id)
        ensures
            r == Self::vid(self.deep_view()),
    ;

    /// Replace this record's id.
    fn set_id(&mut self, id: Self::Id)
        ensures
            final(self).deep_view() == Self::with_vid(old(self).deep_view(), id),
    ;

    /// A copy of this record, equal in model.
    fn duplicate(&self) -> (r: Self)
        ensures
            r.deep_view() == self.deep_view(),
    ;
}

} // verus!
