//! The generator context shared by one documentation pass: the types it
//! knows, whether each one's schema is inline or a component, and the
//! component schemas it has generated so far.
use vstd::prelude::*;
use crate::model::{ResolveError, SchemaRef};

verus! {

/// A type known to a [`SchemaGenerator`], by its registration order.
#[derive(Clone, Copy, Debug, PartialEq, Eq, Structural)]
pub struct DataTypeId {
    pub index: usize,
}

/// The type of a JSON payload: the built-in string type, or a type known to
/// the generator.
#[derive(Clone, Copy, Debug, PartialEq, Eq, Structural)]
pub enum DataType {
    String,
    Registered(DataTypeId),
}

/// A registered type: its name, and whether its schema is written inline
/// rather than as a referenced component.
struct KnownType {
    name: String,
    inline: bool,
}

/// The schema generator of one documentation pass. Types are registered
/// before resolution; generating the schema of a component type records
/// it, once, among the components, which only ever grow.
pub struct SchemaGenerator {
    types: Vec<KnownType>,
    components: Vec<usize>,
}

/// The schema of a payload of type `t`, where `inline` tells, for each
/// registered type, whether its schema is inline.
pub open spec fn schema_of(t: DataType, inline: Seq<bool>) -> Result<SchemaRef, ResolveError> {
    match t {
        DataType::String => Ok(SchemaRef::Str),
        DataType::Registered(id) => if id.index < inline.len() {
            if inline[id.index as int] {
                Ok(SchemaRef::Inline(id.index))
            } else {
                Ok(SchemaRef::Component(id.index))
            }
        } else {
            Err(ResolveError::SchemaGenerationFailure { type_id: id.index })
        },
    }
}

/// The generated components `regs` after the schema of `t` is generated:
/// a component type is appended unless it is already there.
pub open spec fn generated_after(regs: Seq<usize>, t: DataType, inline: Seq<bool>) -> Seq<usize> {
    match schema_of(t, inline) {
        Ok(SchemaRef::Component(i)) => if regs.contains(i) {
            regs
        } else {
            regs.push(i)
        },
        _ => regs,
    }
}

/// `later` is `earlier` after further generation: the same types, and the
/// same components followed by possibly more.
pub open spec fn extends(earlier: SchemaGenerator, later: SchemaGenerator) -> bool {
    &&& later.names() == earlier.names()
    &&& later.inline_flags() == earlier.inline_flags()
    &&& earlier.registered().len() <= later.registered().len()
    &&& forall|i: int| 0 <= i < earlier.registered().len() ==> later.registered()[i] == earlier.registered()[i]
}

impl SchemaGenerator {
    /// The names of the registered types, by id.
    pub closed spec fn names(&self) -> Seq<String> {
        self.types@.map_values(|t: KnownType| t.name)
    }

    /// Whether the schema of each registered type is inline, by id.
    pub closed spec fn inline_flags(&self) -> Seq<bool> {
        self.types@.map_values(|t: KnownType| t.inline)
    }

    /// The number of registered types.
    pub open spec fn type_count(&self) -> nat {
        self.inline_flags().len()
    }

    /// The ids of the types whose component schemas were generated, in the
    /// order of generation.
    pub closed spec fn registered(&self) -> Seq<usize> {
        self.components@
    }

    /// A generator that knows no types.
    pub fn new() -> (r: SchemaGenerator)
        ensures
            r.names() == Seq::<String>::empty(),
            r.inline_flags() == Seq::<bool>::empty(),
            r.registered() == Seq::<usize>::empty(),
    {
        let r = SchemaGenerator { types: Vec::new(), components: Vec::new() };
        proof {
            assert(r.names() =~= Seq::<String>::empty());
            assert(r.inline_flags() =~= Seq::<bool>::empty());
        }
        r
    }

    /// Makes a type known under `name`, with an inline schema or a
    /// component schema, and returns its id.
    pub fn register_type(&mut self, name: String, inline: bool) -> (r: DataTypeId)
        ensures
            r.index == old(self).type_count(),
            final(self).names() == old(self).names().push(name),
            final(self).inline_flags() == old(self).inline_flags().push(inline),
            final(self).registered() == old(self).registered(),
    {
        let index = self.types.len();
        let ghost n = name;
        self.types.push(KnownType { name, inline });
        proof {
            assert(self.names() =~= old(self).names().push(n));
            assert(self.inline_flags() =~= old(self).inline_flags().push(inline));
        }
        DataTypeId { index }
    }

    /// The name of the type `id`, if it is known.
    pub fn name_of(&self, id: DataTypeId) -> (r: Option<&String>)
        ensures
            (id.index < self.type_count()) == (r is Some),
            r matches Some(n) ==> *n == self.names()[id.index as int],
    {
        if id.index < self.types.len() {
            Some(&self.types[id.index].name)
        } else {
            None
        }
    }

    /// Whether the schema of type `id` is inline; `None` for an unknown id.
    pub fn is_inline(&self, id: DataTypeId) -> (r: Option<bool>)
        ensures
            (id.index < self.type_count()) == (r is Some),
            r matches Some(b) ==> b == self.inline_flags()[id.index as int],
    {
        if id.index < self.types.len() {
            Some(self.types[id.index].inline)
        } else {
            None
        }
    }

    /// The ids of the generated component schemas, in generation order.
    pub fn components(&self) -> (r: &Vec<usize>)
        ensures
            r@ == self.registered(),
    {
        &self.components
    }

    /// Whether the component schema of type `index` was generated.
    pub fn is_generated(&self, index: usize) -> (r: bool)
        ensures
            r == self.registered().contains(index),
    {
        let mut i: usize = 0;
        while i < self.components.len()
            invariant
                i <= self.components@.len(),
                forall|k: int| 0 <= k < i ==> self.components@[k] != index,
            decreases self.components@.len() - i,
        {
            if self.components[i] == index {
                return true;
            }
            i = i + 1;
        }
        false
    }

    /// The schema of a payload of type `t`: the string schema, the inline
    /// schema of an inline type, or a reference to the component schema of
    /// a component type, which is generated on first use. Fails for an
    /// unknown type. The generator changes only where a component is added.
    pub fn json_schema(&mut self, t: DataType) -> (r: Result<SchemaRef, ResolveError>)
        ensures
            r == schema_of(t, old(self).inline_flags()),
            final(self).names() == old(self).names(),
            final(self).inline_flags() == old(self).inline_flags(),
            final(self).registered() == generated_after(old(self).registered(), t, old(self).inline_flags()),
            final(self).registered() == old(self).registered() ==> *final(self) == *old(self),
    {
        match t {
            DataType::String => Ok(SchemaRef::Str),
            DataType::Registered(id) => {
                if id.index >= self.types.len() {
                    return Err(ResolveError::SchemaGenerationFailure { type_id: id.index });
                }
                if self.types[id.index].inline {
                    return Ok(SchemaRef::Inline(id.index));
                }
                if !self.is_generated(id.index) {
                    self.components.push(id.index);
                    proof {
                        assert(self.registered().len() == old(self).registered().len() + 1);
                    }
                }
                Ok(SchemaRef::Component(id.index))
            },
        }
    }

    /// The schema that accepts any JSON value.
    pub fn schema_for_any(&self) -> (r: SchemaRef)
        ensures
            r == SchemaRef::Any,
    {
        SchemaRef::Any
    }
}

} // verus!
