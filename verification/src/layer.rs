use vstd::prelude::*;

verus! {

/// A draw-order key: either a literal ordinal, or a symbolic name resolved
/// through a registration table. Higher ordinals draw later (on top).
#[derive(Debug, Clone, PartialEq, Eq, Hash)]
pub enum LayerIdentifier {
    /// A literal ordering key.
    Ordinal(i32),
    /// A name to be looked up in the renderer's layer table.
    Named(String),
}

/// The ordering key an identifier resolves to under table `m`: ordinals are
/// themselves; registered names map through the table; an unregistered name
/// falls back to the default layer 0.
pub open spec fn spec_resolved_ordinal(m: Map<Seq<char>, i32>, layer: Option<LayerIdentifier>) -> int {
    match layer {
        Option::None => 0,
        Option::Some(LayerIdentifier::Ordinal(c)) => c as int,
        Option::Some(LayerIdentifier::Named(name)) => if m.dom().contains(name@) {
            m[name@] as int
        } else {
            0
        },
    }
}

/// What a [`LayerTable`] holds: each registered name's ordinal.
pub uninterp spec fn layer_entries(t: LayerTable) -> Map<Seq<char>, i32>;

/// Name-to-ordinal registrations, backed by a hash map.
///
/// The field is a collection of an outside crate, so the struct body is
/// opaque to the verifier; its contents are tracked through [`layer_entries`].
#[verifier::external_body]
pub struct LayerTable {
    map: hashbrown::HashMap<String, i32>,
}

impl LayerTable {
    /// Relies on hashbrown::HashMap::new: a freshly created map is empty.
    #[verifier::external_body]
    pub fn new() -> (r: LayerTable)
        ensures
            forall|n: Seq<char>| !layer_entries(r).dom().contains(n),
    {
        LayerTable { map: hashbrown::HashMap::new() }
    }

    /// Relies on hashbrown::HashMap::insert: after the call the key maps to
    /// the given value and every other key is unchanged.
    #[verifier::external_body]
    pub fn set_layer(&mut self, name: String, ordinal: i32)
        ensures
            layer_entries(*final(self)) == layer_entries(*old(self)).insert(name@, ordinal),
    {
        self.map.insert(name, ordinal);
    }

    /// Relies on hashbrown::HashMap::get: returns the value stored under the
    /// key, or nothing when the key was never inserted.
    #[verifier::external_body]
    pub fn lookup(&self, name: &str) -> (r: Option<i32>)
        ensures
            r == if layer_entries(*self).dom().contains(name@) {
                Some(layer_entries(*self)[name@])
            } else {
                None::<i32>
            },
    {
        match self.map.get(name) {
            Some(v) => Some(*v),
            None => None,
        }
    }

    /// Resolve a draw request's layer to its ordering key: a missing layer
    /// and an unregistered name both land on the default layer 0.
    pub fn resolve_ordinal(&self, layer: &Option<LayerIdentifier>) -> (r: i32)
        ensures
            r as int == spec_resolved_ordinal(layer_entries(*self), *layer),
    {
        match layer {
            Option::None => 0,
            Option::Some(LayerIdentifier::Ordinal(c)) => *c,
            Option::Some(LayerIdentifier::Named(name)) => match self.lookup(name.as_str()) {
                Some(v) => v,
                None => 0,
            },
        }
    }
}

/// Drawing with a named layer that was never registered orders exactly as
/// drawing with the explicit ordinal 0.
pub proof fn lemma_unregistered_layer_defaults_to_zero(t: LayerTable, name: String)
    requires
        !layer_entries(t).dom().contains(name@),
    ensures
        spec_resolved_ordinal(layer_entries(t), Some(LayerIdentifier::Named(name)))
            == spec_resolved_ordinal(layer_entries(t), Some(LayerIdentifier::Ordinal(0))),
{
}

} // verus!
