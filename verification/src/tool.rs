//! The tool registry: which tools the model may call, and how a call is
//! resolved to one of them.

use vstd::prelude::*;

use crate::error::ToolError;
use crate::message::ToolDefinition;
use crate::text::str_eq;

verus! {

/// The registered tools, in registration order.
pub struct ToolRegistry {
    definitions: Vec<ToolDefinition>,
}

/// The names of a sequence of tool definitions.
pub open spec fn definition_names(ds: Seq<ToolDefinition>) -> Seq<Seq<char>> {
    ds.map_values(|d: ToolDefinition| d.name@)
}

/// The position of the first definition named `name`, if any.
pub open spec fn first_named(ds: Seq<ToolDefinition>, name: Seq<char>) -> Option<int> {
    if exists|i: int| 0 <= i < ds.len() && ds[i].name@ == name {
        Some(choose|i: int| 0 <= i < ds.len() && ds[i].name@ == name
            && forall|j: int| 0 <= j < i ==> ds[j].name@ != name)
    } else {
        None
    }
}

impl ToolRegistry {
    /// The registered definitions, in registration order.
    pub closed spec fn registered(&self) -> Seq<ToolDefinition> {
        self.definitions@
    }

    /// An empty registry.
    pub fn new() -> (r: Self)
        ensures
            r.registered() == Seq::<ToolDefinition>::empty(),
    {
        ToolRegistry { definitions: Vec::new() }
    }

    /// Register one tool.
    pub fn register(&mut self, definition: ToolDefinition)
        ensures
            final(self).registered() == old(self).registered().push(definition),
    {
        self.definitions.push(definition);
    }

    /// The names of the registered tools, in registration order.
    pub fn names(&self) -> (r: Vec<String>)
        ensures
            r@.map_values(|s: String| s@) == definition_names(self.registered()),
    {
        let mut names: Vec<String> = Vec::new();
        let mut i: usize = 0;
        while i < self.definitions.len()
            invariant
                0 <= i <= self.definitions@.len(),
                names@.map_values(|s: String| s@) == definition_names(self.definitions@.take(i as int)),
            decreases self.definitions@.len() - i,
        {
            let ghost prev = names@;
            let n = self.definitions[i].name.clone();
            names.push(n);
            proof {
                assert(names@.map_values(|s: String| s@) =~= prev.map_values(|s: String| s@).push(n@));
                assert(self.definitions@.take(i + 1) =~= self.definitions@.take(i as int).push(self.definitions@[i as int]));
                assert(names@.map_values(|s: String| s@) =~= definition_names(self.definitions@.take(i + 1)));
            }
            i += 1;
        }
        assert(self.definitions@.take(self.definitions@.len() as int) =~= self.definitions@);
        names
    }

    /// The definitions advertised to the model.
    pub fn definitions(&self) -> (r: &Vec<ToolDefinition>)
        ensures
            r@ == self.registered(),
    {
        &self.definitions
    }

    /// Resolve a tool call's name to the position of the first tool
    /// registered under it; an unknown name is `NotFound`.
    pub fn resolve(&self, name: &str) -> (r: Result<usize, ToolError>)
        ensures
            match first_named(self.registered(), name@) {
                Some(i) => r == Ok::<usize, ToolError>(i as usize),
                None => (r matches Err(ToolError::NotFound(n)) && n@ == name@),
            },
    {
        let mut i: usize = 0;
        while i < self.definitions.len()
            invariant
                0 <= i <= self.definitions@.len(),
                forall|j: int| 0 <= j < i ==> self.definitions@[j].name@ != name@,
            decreases self.definitions@.len() - i,
        {
            if str_eq(self.definitions[i].name.as_str(), name) {
                proof {
                    let ds = self.definitions@;
                    assert(exists|k: int| 0 <= k < ds.len() && ds[k].name@ == name@);
                    let c = first_named(ds, name@)->0;
                    assert(0 <= c < ds.len() && ds[c].name@ == name@ && forall|j: int| 0 <= j < c ==> ds[j].name@ != name@);
                    if c < i {
                    } else if c > i {
                        assert(ds[i as int].name@ == name@);
                    }
                }
                return Ok(i);
            }
            i += 1;
        }
        Err(ToolError::NotFound(name.to_owned()))
    }
}

} // verus!
