//! The extension resolver: maps an extension name to its descriptor.
//!
//! The table is populated before a run begins and read-only for the run's
//! duration. A name registered twice resolves to its latest registration,
//! like a map whose `insert` overwrites.

use vstd::prelude::*;
use crate::ast::{Attribute, Ident, Mac};
use crate::registry::{Expander, NamedSyntaxExtension, SyntaxExtension};

verus! {

/// The extension a name resolves to in a registration table: the latest
/// registration under that name, if any.
pub open spec fn find_ext(t: Seq<NamedSyntaxExtension>, name: Seq<char>) -> Option<
    SyntaxExtension,
>
    decreases t.len(),
{
    if t.len() == 0 {
        Option::None
    } else if t.last().0@ == name {
        Option::Some(t.last().1)
    } else {
        find_ext(t.drop_last(), name)
    }
}

/// Whether `name` resolves to a decorator or a modifier in table `t`.
pub open spec fn resolves_to_attr_ext(t: Seq<NamedSyntaxExtension>, name: Seq<char>) -> bool {
    match find_ext(t, name) {
        Option::Some(e) => e is MultiDecorator || e is MultiModifier,
        Option::None => false,
    }
}

/// Looks extensions up by name; lookup policy is a flat table where the
/// latest registration of a name wins.
#[derive(Debug)]
pub struct Resolver {
    pub extensions: Vec<NamedSyntaxExtension>,
    pub derive_modes: Vec<(String, Expander)>,
    pub next_node_id: u64,
}

impl Resolver {
    /// A resolver with an empty table, minting identities from 1 up.
    pub fn new() -> (r: Resolver)
        ensures
            r.extensions@.len() == 0,
            r.derive_modes@.len() == 0,
            r.next_node_id == 1,
    {
        Resolver { extensions: Vec::new(), derive_modes: Vec::new(), next_node_id: 1 }
    }

    /// Hands out the next identity, which is never handed out again.
    pub fn next_node_id(&mut self) -> (r: u64)
        requires
            old(self).next_node_id < u64::MAX,
        ensures
            r == old(self).next_node_id,
            final(self).next_node_id == old(self).next_node_id + 1,
            final(self).extensions == old(self).extensions,
            final(self).derive_modes == old(self).derive_modes,
    {
        let id = self.next_node_id;
        self.next_node_id = self.next_node_id + 1;
        id
    }

    /// The scope mark of a module: always the root mark, since the table is
    /// flat.
    pub fn get_module_scope(&self, _id: u64) -> (r: u64)
        ensures
            r == 0,
    {
        0
    }

    /// Registers one extension under the name of `ident`.
    pub fn add_ext(&mut self, ident: Ident, ext: SyntaxExtension)
        ensures
            final(self).extensions@.len() == old(self).extensions@.len() + 1,
            forall|i: int|
                0 <= i < old(self).extensions@.len() ==> final(self).extensions@[i] == old(
                    self,
                ).extensions@[i],
            final(self).extensions@.last().0@ == ident.name@,
            final(self).extensions@.last().1 == ext,
            final(self).derive_modes == old(self).derive_modes,
            final(self).next_node_id == old(self).next_node_id,
    {
        self.extensions.push((ident.name, ext));
    }

    /// The extension registered under `name`, if any.
    pub fn find_extension(&self, _scope: u64, name: &String) -> (r: Option<&SyntaxExtension>)
        ensures
            match r {
                Option::Some(e) => find_ext(self.extensions@, name@) == Option::Some(*e),
                Option::None => find_ext(self.extensions@, name@) is None,
            },
    {
        let n: usize = self.extensions.len();
        let mut i: usize = n;
        proof {
            assert(self.extensions@.subrange(0, n as int) =~= self.extensions@);
        }
        while i > 0
            invariant
                n == self.extensions@.len(),
                i <= n,
                find_ext(self.extensions@, name@) == find_ext(
                    self.extensions@.subrange(0, i as int),
                    name@,
                ),
            decreases i,
        {
            i = i - 1;
            proof {
                assert(self.extensions@.subrange(0, i + 1 as int).last() == self.extensions@[
                    i as int]);
                assert(self.extensions@.subrange(0, i + 1 as int).drop_last() =~= self.extensions@
                    .subrange(0, i as int));
            }
            if self.extensions[i].0 == *name {
                return Option::Some(&self.extensions[i].1);
            }
        }
        proof {
            assert(self.extensions@.subrange(0, 0) =~= Seq::<NamedSyntaxExtension>::empty());
        }
        Option::None
    }

    /// Extracts the first attribute whose name resolves to a decorator or a
    /// modifier, removing it from `attrs`; `None` when no attribute does.
    pub fn find_attr_invoc(&self, attrs: &mut Vec<Attribute>) -> (r: Option<Attribute>)
        ensures
            match r {
                Option::None => {
                    &&& final(attrs)@ == old(attrs)@
                    &&& forall|i: int|
                        0 <= i < old(attrs)@.len() ==> !resolves_to_attr_ext(
                            self.extensions@,
                            old(attrs)@[i].meta.spec_name(),
                        )
                },
                Option::Some(a) => exists|i: int|
                    {
                        &&& 0 <= i < old(attrs)@.len()
                        &&& a == old(attrs)@[i]
                        &&& resolves_to_attr_ext(self.extensions@, a.meta.spec_name())
                        &&& final(attrs)@ == old(attrs)@.remove(i)
                        &&& forall|j: int|
                            0 <= j < i ==> !resolves_to_attr_ext(
                                self.extensions@,
                                old(attrs)@[j].meta.spec_name(),
                            )
                    },
            },
    {
        let n: usize = attrs.len();
        let mut i: usize = 0;
        while i < n
            invariant
                n == attrs@.len(),
                i <= n,
                attrs@ == old(attrs)@,
                forall|j: int|
                    0 <= j < i ==> !resolves_to_attr_ext(
                        self.extensions@,
                        attrs@[j].meta.spec_name(),
                    ),
            decreases n - i,
        {
            let name = attrs[i].name();
            let hit = match self.find_extension(0, name) {
                Option::Some(SyntaxExtension::MultiDecorator(_)) => true,
                Option::Some(SyntaxExtension::MultiModifier(_)) => true,
                _ => false,
            };
            if hit {
                let ghost at: int = i as int;
                let a = attrs.remove(i);
                proof {
                    assert(0 <= at < old(attrs)@.len() && a == old(attrs)@[at]
                        && resolves_to_attr_ext(self.extensions@, a.meta.spec_name()) && attrs@
                        == old(attrs)@.remove(at) && forall|j: int|
                        0 <= j < at ==> !resolves_to_attr_ext(
                            self.extensions@,
                            old(attrs)@[j].meta.spec_name(),
                        ));
                }
                return Option::Some(a);
            }
            i += 1;
        }
        Option::None
    }

    /// The extension a call-form invocation names, or `None` when the path is
    /// not a bare single-segment name or the name is not registered.
    pub fn find_mac(&self, scope: u64, mac: &Mac) -> (r: Option<&SyntaxExtension>)
        ensures
            mac_path_malformed(*mac) ==> r is None,
            !mac_path_malformed(*mac) ==> match r {
                Option::Some(e) => find_ext(self.extensions@, mac.segments@[0].name@)
                    == Option::Some(*e),
                Option::None => find_ext(self.extensions@, mac.segments@[0].name@) is None,
            },
    {
        if mac.segments.len() != 1 || mac.global || mac.has_parameters {
            return Option::None;
        }
        self.find_extension(scope, &mac.segments[0].name)
    }

    /// The extension an invocation names: for a call-form invocation, `None`
    /// when its path is ill-shaped or unregistered; for an attribute-triggered
    /// invocation, whatever its attribute's name resolves to.
    pub fn resolve_invoc(&self, scope: u64, invoc: &crate::expand::Invocation) -> (r: Option<
        &SyntaxExtension,
    >)
        ensures
            match invoc.kind {
                crate::expand::InvocationKind::Bang { mac, .. } => {
                    &&& (mac_path_malformed(mac) ==> r is None)
                    &&& (!mac_path_malformed(mac) ==> match r {
                        Option::Some(e) => find_ext(self.extensions@, mac.segments@[0].name@)
                            == Option::Some(*e),
                        Option::None => find_ext(self.extensions@, mac.segments@[0].name@)
                            is None,
                    })
                },
                crate::expand::InvocationKind::Attr { attr, .. } => match r {
                    Option::Some(e) => find_ext(self.extensions@, attr.meta.spec_name())
                        == Option::Some(*e),
                    Option::None => find_ext(self.extensions@, attr.meta.spec_name()) is None,
                },
            },
    {
        match &invoc.kind {
            crate::expand::InvocationKind::Bang { mac, .. } => self.find_mac(scope, mac),
            crate::expand::InvocationKind::Attr { attr, .. } => self.find_extension(
                scope,
                attr.name(),
            ),
        }
    }

    /// Called once per finished expansion; this resolver keeps no record of
    /// them.
    pub fn visit_expansion(&mut self, _invoc: u64, _expansion: &crate::expand::Expansion)
        ensures
            *final(self) == *old(self),
    {
    }

    /// Called for expansions introduced at a statement; this resolver keeps
    /// no record of them.
    pub fn add_expansions_at_stmt(&mut self, _id: u64, _macros: Vec<u64>)
        ensures
            *final(self) == *old(self),
    {
    }

    /// The derive mode registered under the name of `ident`, if any: the
    /// earliest registration under that name.
    pub fn resolve_derive_mode(&self, ident: &Ident) -> (r: Option<&Expander>)
        ensures
            match r {
                Option::Some(e) => find_derive_mode(self.derive_modes@, ident.name@)
                    == Option::Some(*e),
                Option::None => find_derive_mode(self.derive_modes@, ident.name@) is None,
            },
    {
        let n: usize = self.derive_modes.len();
        let mut i: usize = 0;
        proof {
            assert(self.derive_modes@.subrange(0, n as int) =~= self.derive_modes@);
        }
        while i < n
            invariant
                n == self.derive_modes@.len(),
                i <= n,
                find_derive_mode(self.derive_modes@, ident.name@) == find_derive_mode(
                    self.derive_modes@.subrange(i as int, n as int),
                    ident.name@,
                ),
            decreases n - i,
        {
            proof {
                assert(self.derive_modes@.subrange(i as int, n as int)[0] == self.derive_modes@[
                    i as int]);
                assert(self.derive_modes@.subrange(i as int, n as int).skip(1)
                    =~= self.derive_modes@.subrange(i + 1 as int, n as int));
            }
            if self.derive_modes[i].0 == ident.name {
                return Option::Some(&self.derive_modes[i].1);
            }
            i += 1;
        }
        Option::None
    }
}

/// The derive mode a name resolves to in a registration list: the earliest
/// registration under that name, if any.
pub open spec fn find_derive_mode(t: Seq<(String, Expander)>, name: Seq<char>) -> Option<Expander>
    decreases t.len(),
{
    if t.len() == 0 {
        Option::None
    } else if t[0].0@ == name {
        Option::Some(t[0].1)
    } else {
        find_derive_mode(t.skip(1), name)
    }
}

/// Whether a call-form path is ill-shaped: qualified, global, or carrying
/// parameters, where only a bare single-segment name can resolve.
pub open spec fn mac_path_malformed(mac: Mac) -> bool {
    mac.segments@.len() != 1 || mac.global || mac.has_parameters
}

} // verus!
