//! The code generator's table of local variables: one slot per declared name.
use vstd::prelude::*;
use crate::token::Token;
use crate::types::FieldDeclaration;

verus! {

/// A declared local: its name and the block depth it was declared at.
#[derive(Debug)]
pub struct Local {
    pub name: String,
    pub depth: usize,
}

/// Slot allocation for one compilation unit. A name's slot is its position in
/// `locals`; lookups go from the newest declaration back.
#[derive(Debug)]
pub struct Compiler {
    locals: Vec<Local>,
    structs: Vec<(String, Vec<String>)>,
    scope_depth: usize,
    debug: bool,
}

/// The slot that `name` resolves to in `names`: the last position holding it.
pub open spec fn resolve(names: Seq<Seq<char>>, name: Seq<char>) -> Option<nat>
    decreases names.len(),
{
    if names.len() == 0 {
        None
    } else if names.last() == name {
        Some((names.len() - 1) as nat)
    } else {
        resolve(names.drop_last(), name)
    }
}

pub open spec fn strings_view(s: Seq<String>) -> Seq<Seq<char>> {
    Seq::new(s.len(), |i: int| s[i]@)
}

/// Field names of the newest struct declared as `name`.
pub open spec fn struct_field_names(structs: Seq<(Seq<char>, Seq<Seq<char>>)>, name: Seq<char>) -> Option<
    Seq<Seq<char>>,
>
    decreases structs.len(),
{
    if structs.len() == 0 {
        None
    } else if structs.last().0 == name {
        Some(structs.last().1)
    } else {
        struct_field_names(structs.drop_last(), name)
    }
}

/// The newest declaration of a name is the one it resolves to.
pub proof fn lemma_newest_declaration_wins(names: Seq<Seq<char>>, name: Seq<char>)
    ensures
        resolve(names.push(name), name) == Some(names.len()),
{
}

/// Number of leading entries of `depths` declared at depth `d` or less: what stays
/// when the block at depth `d + 1` ends.
pub open spec fn kept_after_block(depths: Seq<nat>, d: nat) -> nat
    decreases depths.len(),
{
    if depths.len() == 0 {
        0
    } else if depths.last() > d {
        kept_after_block(depths.drop_last(), d)
    } else {
        depths.len() as nat
    }
}

/// Field names of a struct declaration, in order.
pub open spec fn decl_names(d: Seq<FieldDeclaration>) -> Seq<Seq<char>> {
    Seq::new(d.len(), |i: int| d[i].0.0@)
}

fn copy_strings(v: &Vec<String>) -> (r: Vec<String>)
    ensures
        strings_view(r@) == strings_view(v@),
{
    let mut out: Vec<String> = Vec::new();
    let mut i: usize = 0;
    while i < v.len()
        invariant
            i <= v@.len(),
            out@.len() == i,
            forall|j: int| 0 <= j < i ==> #[trigger] out@[j]@ == v@[j]@,
        decreases v@.len() - i,
    {
        out.push(v[i].clone());
        i = i + 1;
    }
    assert(strings_view(out@) =~= strings_view(v@));
    out
}

/// Ending a block keeps exactly the locals from before it: when the table held
/// `outer` at depth `d` and the block then declared locals at depth `d + 1`, the
/// entries kept number those of `outer`.
pub proof fn lemma_kept_after_block(a: Seq<nat>, b: Seq<nat>, d: nat)
    requires
        forall|i: int| 0 <= i < a.len() ==> #[trigger] a[i] <= d,
        forall|i: int| 0 <= i < b.len() ==> #[trigger] b[i] > d,
    ensures
        kept_after_block(a + b, d) == a.len(),
    decreases b.len(),
{
    if b.len() == 0 {
        assert(a + b =~= a);
        if a.len() > 0 {
            assert(a[a.len() - 1] <= d);
        }
    } else {
        assert((a + b).drop_last() =~= a + b.drop_last());
        assert((a + b).last() == b.last());
        lemma_kept_after_block(a, b.drop_last(), d);
    }
}

/// After a block that only declared locals, every name resolves as it did before the
/// block began, shadowed names included.
pub proof fn lemma_block_end_restores_names(before: Compiler, inside: Compiler, after: Compiler)
    requires
        before.wf(),
        inside.wf(),
        inside.depth() == before.depth() + 1,
        inside.names().len() >= before.names().len(),
        inside.names().subrange(0, before.names().len() as int) == before.names(),
        inside.depths().subrange(0, before.depths().len() as int) == before.depths(),
        forall|i: int|
            before.depths().len() <= i < inside.depths().len() ==> #[trigger] inside.depths()[i]
                == before.depth() + 1,
        after.names() == inside.names().subrange(
            0,
            kept_after_block(inside.depths(), before.depth()) as int,
        ),
    ensures
        after.names() == before.names(),
        forall|name: Seq<char>| #[trigger] resolve(after.names(), name) == resolve(before.names(), name),
{
    let n = before.depths().len() as int;
    let ds = inside.depths();
    assert(ds =~= ds.subrange(0, n) + ds.subrange(n, ds.len() as int));
    assert forall|i: int| 0 <= i < n implies #[trigger] ds.subrange(0, n)[i] <= before.depth() by {
        assert(ds.subrange(0, n)[i] == before.depths()[i]);
    }
    lemma_kept_after_block(ds.subrange(0, n), ds.subrange(n, ds.len() as int), before.depth());
}

impl Compiler {
    /// Names of the locals, slot by slot.
    pub closed spec fn names(&self) -> Seq<Seq<char>> {
        Seq::new(self.locals@.len(), |i: int| self.locals@[i].name@)
    }

    /// Block depth of each local, slot by slot.
    pub closed spec fn depths(&self) -> Seq<nat> {
        Seq::new(self.locals@.len(), |i: int| self.locals@[i].depth as nat)
    }

    /// Declared structs: name and field names in declaration order.
    pub closed spec fn structs(&self) -> Seq<(Seq<char>, Seq<Seq<char>>)> {
        Seq::new(
            self.structs@.len(),
            |i: int| (self.structs@[i].0@, strings_view(self.structs@[i].1@)),
        )
    }

    /// Current block depth.
    pub closed spec fn depth(&self) -> nat {
        self.scope_depth as nat
    }

    /// Depths never exceed the current one and never decrease along the table.
    pub open spec fn wf(&self) -> bool {
        &&& self.depths().len() == self.names().len()
        &&& forall|i: int| 0 <= i < self.depths().len() ==> #[trigger] self.depths()[i] <= self.depth()
        &&& forall|i: int, j: int|
            0 <= i <= j < self.depths().len() ==> #[trigger] self.depths()[i] <= #[trigger] self.depths()[j]
    }

    pub fn init(debug: bool) -> (r: Compiler)
        ensures
            r.names() == Seq::<Seq<char>>::empty(),
            r.structs() == Seq::<(Seq<char>, Seq<Seq<char>>)>::empty(),
            r.depth() == 0,
            r.wf(),
    {
        Compiler { locals: Vec::new(), structs: Vec::new(), scope_depth: 0, debug }
    }

    /// Enters a block.
    pub fn begin_scope(&mut self)
        requires
            old(self).wf(),
            old(self).depth() < usize::MAX,
        ensures
            final(self).names() == old(self).names(),
            final(self).structs() == old(self).structs(),
            final(self).depths() == old(self).depths(),
            final(self).depth() == old(self).depth() + 1,
            final(self).wf(),
    {
        self.scope_depth = self.scope_depth + 1;
    }

    /// Leaves a block: the names declared in it are forgotten.
    pub fn end_scope(&mut self)
        requires
            old(self).wf(),
        ensures
            old(self).depth() == 0 ==> {
                &&& final(self).names() == old(self).names()
                &&& final(self).depths() == old(self).depths()
                &&& final(self).depth() == 0
            },
            old(self).depth() > 0 ==> {
                let k = kept_after_block(old(self).depths(), (old(self).depth() - 1) as nat) as int;
                &&& final(self).names() == old(self).names().subrange(0, k)
                &&& final(self).depths() == old(self).depths().subrange(0, k)
                &&& final(self).depth() == old(self).depth() - 1
            },
            final(self).structs() == old(self).structs(),
            final(self).wf(),
    {
        if self.scope_depth == 0 {
            return;
        }
        let d = self.scope_depth - 1;
        let ghost depths0 = self.depths();
        let ghost names0 = self.names();
        while self.locals.len() > 0 && self.locals[self.locals.len() - 1].depth > d
            invariant
                self.scope_depth == d + 1,
                self.structs() == old(self).structs(),
                self.locals@.len() <= depths0.len(),
                names0.len() == depths0.len(),
                self.depths() == depths0.subrange(0, self.locals@.len() as int),
                self.names() == names0.subrange(0, self.locals@.len() as int),
                kept_after_block(depths0, d as nat) == kept_after_block(self.depths(), d as nat),
                forall|i: int| 0 <= i < depths0.len() ==> #[trigger] depths0[i] <= d + 1,
                forall|i: int, j: int| 0 <= i <= j < depths0.len() ==> #[trigger] depths0[i] <= #[trigger] depths0[j],
            decreases self.locals@.len(),
        {
            let ghost before = self.depths();
            self.locals.pop();
            proof {
                assert(before.drop_last() =~= self.depths());
                assert(self.names() =~= names0.subrange(0, self.locals@.len() as int));
            }
        }
        proof {
            let n = self.locals@.len() as int;
            if n > 0 {
                assert(self.depths()[n - 1] == self.locals@[n - 1].depth as nat);
            }
            assert(kept_after_block(self.depths(), d as nat) == n);
            assert(self.depths() =~= depths0.subrange(0, n));
        }
        self.scope_depth = d;
    }

    /// Declares `token`'s name in the next slot and returns that slot.
    pub fn add_variable(&mut self, token: &Token) -> (r: usize)
        requires
            old(self).wf(),
            old(self).names().len() < usize::MAX,
        ensures
            r == old(self).names().len(),
            final(self).names() == old(self).names().push(token.lexeme@),
            final(self).depths() == old(self).depths().push(old(self).depth()),
            final(self).depth() == old(self).depth(),
            final(self).structs() == old(self).structs(),
            final(self).wf(),
    {
        self.locals.push(Local { name: token.lexeme.clone(), depth: self.scope_depth });
        proof {
            assert(self.names() =~= old(self).names().push(token.lexeme@));
            assert(self.depths() =~= old(self).depths().push(old(self).depth()));
        }
        self.locals.len() - 1
    }

    /// The slot of the newest local named like `token`.
    pub fn resolve_variable(&self, token: &Token) -> (r: Option<usize>)
        ensures
            r.is_some() == resolve(self.names(), token.lexeme@).is_some(),
            r.is_some() ==> r.unwrap() as nat == resolve(self.names(), token.lexeme@).unwrap(),
    {
        let mut i: usize = self.locals.len();
        assert(self.names().subrange(0, i as int) =~= self.names());
        while i > 0
            invariant
                i <= self.locals@.len(),
                resolve(self.names(), token.lexeme@) == resolve(
                    self.names().subrange(0, i as int),
                    token.lexeme@,
                ),
            decreases i,
        {
            let ghost pre = self.names().subrange(0, i as int);
            if self.locals[i - 1].name == token.lexeme {
                return Some(i - 1);
            }
            proof {
                assert(pre.drop_last() =~= self.names().subrange(0, i - 1));
            }
            i = i - 1;
        }
        None
    }

    /// Current block depth.
    pub fn scope_depth(&self) -> (r: usize)
        ensures
            r == self.depth(),
    {
        self.scope_depth
    }

    /// Number of declared locals.
    pub fn local_count(&self) -> (r: usize)
        ensures
            r == self.names().len(),
    {
        self.locals.len()
    }

    /// A table with no locals that knows the same structs.
    pub fn enclosed(&self) -> (r: Compiler)
        ensures
            r.names() == Seq::<Seq<char>>::empty(),
            r.structs() == self.structs(),
            r.depth() == 0,
            r.wf(),
    {
        let r = Compiler {
            locals: Vec::new(),
            structs: self.structs_snapshot(),
            scope_depth: 0,
            debug: self.debug,
        };
        assert(r.names() =~= Seq::<Seq<char>>::empty());
        assert(r.depths() =~= Seq::<nat>::empty());
        r
    }

    fn structs_snapshot(&self) -> (r: Vec<(String, Vec<String>)>)
        ensures
            Seq::new(r@.len(), |i: int| (r@[i].0@, strings_view(r@[i].1@))) == self.structs(),
    {
        let mut out: Vec<(String, Vec<String>)> = Vec::new();
        let mut i: usize = 0;
        while i < self.structs.len()
            invariant
                i <= self.structs@.len(),
                out@.len() == i,
                forall|j: int| 0 <= j < i ==> #[trigger] out@[j].0@ == self.structs@[j].0@,
                forall|j: int|
                    0 <= j < i ==> #[trigger] strings_view(out@[j].1@) == strings_view(
                        self.structs@[j].1@,
                    ),
            decreases self.structs@.len() - i,
        {
            let names = copy_strings(&self.structs[i].1);
            out.push((self.structs[i].0.clone(), names));
            i = i + 1;
        }
        assert(Seq::new(out@.len(), |i: int| (out@[i].0@, strings_view(out@[i].1@))) =~= self.structs());
        out
    }

    /// Records a struct declaration: its name and its field names in order.
    pub fn declare_struct(&mut self, name: &Token, fields: &Vec<FieldDeclaration>)
        ensures
            final(self).structs() == old(self).structs().push((name.lexeme@, decl_names(fields@))),
            final(self).names() == old(self).names(),
            final(self).depths() == old(self).depths(),
            final(self).depth() == old(self).depth(),
    {
        let mut names: Vec<String> = Vec::new();
        let mut i: usize = 0;
        while i < fields.len()
            invariant
                i <= fields@.len(),
                names@.len() == i,
                forall|j: int| 0 <= j < i ==> #[trigger] names@[j]@ == fields@[j].0.0@,
            decreases fields@.len() - i,
        {
            names.push(fields[i].0.0.clone());
            i = i + 1;
        }
        assert(strings_view(names@) =~= decl_names(fields@));
        self.structs.push((name.lexeme.clone(), names));
        assert(self.structs() =~= old(self).structs().push((name.lexeme@, decl_names(fields@))));
        assert(self.names() =~= old(self).names());
        assert(self.depths() =~= old(self).depths());
    }

    /// Field names, in declaration order, of the newest struct named like `name`.
    pub fn struct_fields(&self, name: &Token) -> (r: Option<Vec<String>>)
        ensures
            r is Some == struct_field_names(self.structs(), name.lexeme@) is Some,
            r is Some ==> strings_view(r->Some_0@) == struct_field_names(
                self.structs(),
                name.lexeme@,
            )->Some_0,
    {
        let ghost all = self.structs();
        let mut i: usize = self.structs.len();
        assert(all.subrange(0, i as int) =~= all);
        while i > 0
            invariant
                i <= self.structs@.len(),
                all == self.structs(),
                struct_field_names(all, name.lexeme@) == struct_field_names(
                    all.subrange(0, i as int),
                    name.lexeme@,
                ),
            decreases i,
        {
            let ghost pre = all.subrange(0, i as int);
            if self.structs[i - 1].0 == name.lexeme {
                return Some(copy_strings(&self.structs[i - 1].1));
            }
            assert(pre.drop_last() =~= all.subrange(0, i - 1));
            i = i - 1;
        }
        None
    }

    /// An independent copy of the table.
    pub fn deep_clone(&self) -> (r: Compiler)
        ensures
            r.names() == self.names(),
            r.structs() == self.structs(),
            r.depths() == self.depths(),
            r.depth() == self.depth(),
    {
        let mut locals: Vec<Local> = Vec::new();
        let mut i: usize = 0;
        while i < self.locals.len()
            invariant
                i <= self.locals@.len(),
                locals@.len() == i,
                forall|j: int|
                    0 <= j < i ==> #[trigger] locals@[j].name@ == self.locals@[j].name@,
                forall|j: int| 0 <= j < i ==> #[trigger] locals@[j].depth == self.locals@[j].depth,
            decreases self.locals@.len() - i,
        {
            locals.push(Local { name: self.locals[i].name.clone(), depth: self.locals[i].depth });
            i = i + 1;
        }
        let structs = self.structs_snapshot();
        let r = Compiler { locals, structs, scope_depth: self.scope_depth, debug: self.debug };
        assert(r.names() =~= self.names());
        assert(r.depths() =~= self.depths());
        r
    }
}

} // verus!
