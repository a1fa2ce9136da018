//! Lexical scopes: what each declared name was classified as, and the stack
//! of scopes that brace nesting opens and closes.

use vstd::prelude::*;
use crate::classify::VarInfo;
use crate::text::push_chars;

verus! {

/// One declared name with its class.
pub struct Binding {
    pub name: Vec<char>,
    pub info: VarInfo,
}

/// The map that a list of bindings stands for: a later binding of a name
/// replaces an earlier one.
pub open spec fn bindings_map(bs: Seq<Binding>) -> Map<Seq<char>, VarInfo>
    decreases bs.len(),
{
    if bs.len() == 0 {
        Map::empty()
    } else {
        bindings_map(bs.drop_last()).insert(bs.last().name@, bs.last().info)
    }
}

/// The class of `name` in the map `m`.
pub open spec fn get_of(m: Map<Seq<char>, VarInfo>, name: Seq<char>) -> Option<VarInfo> {
    if m.dom().contains(name) {
        Some(m[name])
    } else {
        None
    }
}

/// Replacing the last binding of a name is an insertion into the map.
proof fn lemma_update_last(bs: Seq<Binding>, j: int, b: Binding)
    requires
        0 <= j < bs.len(),
        b.name@ == bs[j].name@,
        forall|k: int| j < k < bs.len() ==> bs[k].name@ != b.name@,
    ensures
        bindings_map(bs.update(j, b)) == bindings_map(bs).insert(b.name@, b.info),
    decreases bs.len(),
{
    let up = bs.update(j, b);
    if j == bs.len() - 1 {
        assert(up.drop_last() =~= bs.drop_last());
        assert(bindings_map(up) =~= bindings_map(bs).insert(b.name@, b.info));
    } else {
        assert(up.drop_last() =~= bs.drop_last().update(j, b));
        assert(up.last() == bs.last());
        lemma_update_last(bs.drop_last(), j, b);
        assert(bindings_map(up) =~= bindings_map(bs).insert(b.name@, b.info));
    }
}

/// A name that no binding holds is not in the map.
proof fn lemma_absent(bs: Seq<Binding>, name: Seq<char>)
    requires
        forall|k: int| 0 <= k < bs.len() ==> bs[k].name@ != name,
    ensures
        !bindings_map(bs).dom().contains(name),
    decreases bs.len(),
{
    if bs.len() > 0 {
        lemma_absent(bs.drop_last(), name);
    }
}

/// The last binding of a name gives its class.
proof fn lemma_last_binding(bs: Seq<Binding>, j: int)
    requires
        0 <= j < bs.len(),
        forall|k: int| j < k < bs.len() ==> bs[k].name@ != bs[j].name@,
    ensures
        get_of(bindings_map(bs), bs[j].name@) == Some(bs[j].info),
    decreases bs.len(),
{
    if j < bs.len() - 1 {
        lemma_last_binding(bs.drop_last(), j);
    }
}

/// The variables declared between one `{` and its `}`.
pub struct Scope {
    bindings: Vec<Binding>,
}

impl View for Scope {
    type V = Map<Seq<char>, VarInfo>;

    closed spec fn view(&self) -> Map<Seq<char>, VarInfo> {
        bindings_map(self.bindings@)
    }
}

fn same_text(a: &Vec<char>, b: &[char]) -> (r: bool)
    ensures
        r == (a@ == b@),
{
    let n = a.len();
    if n != b.len() {
        return false;
    }
    let mut i: usize = 0;
    while i < n
        invariant
            0 <= i <= n,
            n == a@.len(),
            n == b@.len(),
            forall|k: int| 0 <= k < i ==> a@[k] == b@[k],
        decreases n - i,
    {
        if a[i] != b[i] {
            return false;
        }
        i += 1;
    }
    proof {
        assert(a@ =~= b@);
    }
    true
}

fn copy_text(s: &[char]) -> (r: Vec<char>)
    ensures
        r@ == s@,
{
    let mut out: Vec<char> = Vec::with_capacity(s.len());
    push_chars(&mut out, s);
    out
}

impl Scope {
    /// A scope that declares nothing.
    pub fn new() -> (r: Scope)
        ensures
            r@ == Map::<Seq<char>, VarInfo>::empty(),
    {
        Scope { bindings: Vec::new() }
    }

    /// The index of the last binding of `name`.
    fn position(&self, name: &[char]) -> (r: Option<usize>)
        ensures
            match r {
                Some(j) => j < self.bindings@.len() && self.bindings@[j as int].name@ == name@
                    && forall|k: int|
                    j < k < self.bindings@.len() ==> self.bindings@[k].name@ != name@,
                None => forall|k: int|
                    0 <= k < self.bindings@.len() ==> self.bindings@[k].name@ != name@,
            },
    {
        let mut j: usize = self.bindings.len();
        while j > 0
            invariant
                0 <= j <= self.bindings@.len(),
                forall|k: int| j <= k < self.bindings@.len() ==> self.bindings@[k].name@ != name@,
            decreases j,
        {
            j -= 1;
            if same_text(&self.bindings[j].name, name) {
                return Some(j);
            }
        }
        None
    }

    /// The class of `name` in this scope.
    pub fn get(&self, name: &[char]) -> (r: Option<VarInfo>)
        ensures
            r == get_of(self@, name@),
    {
        match self.position(name) {
            Some(j) => {
                proof {
                    lemma_last_binding(self.bindings@, j as int);
                }
                Some(self.bindings[j].info)
            },
            None => {
                proof {
                    lemma_absent(self.bindings@, name@);
                }
                None
            },
        }
    }

    /// Declares `name` with the class `info`; an earlier declaration of the
    /// name in this scope is replaced.
    pub fn insert(&mut self, name: &[char], info: VarInfo)
        ensures
            final(self)@ == old(self)@.insert(name@, info),
    {
        let binding = Binding { name: copy_text(name), info };
        match self.position(name) {
            Some(j) => {
                proof {
                    lemma_update_last(self.bindings@, j as int, binding);
                }
                self.bindings[j] = binding;
            },
            None => {
                self.bindings.push(binding);
                proof {
                    assert(self.bindings@.drop_last() =~= old(self).bindings@);
                }
            },
        }
    }
}

/* The stack of scopes */

/// The class of `name` in the innermost scope that declares it.
pub open spec fn lookup_of(scopes: Seq<Map<Seq<char>, VarInfo>>, name: Seq<char>) -> Option<
    VarInfo,
>
    decreases scopes.len(),
{
    if scopes.len() == 0 {
        None
    } else if scopes.last().dom().contains(name) {
        Some(scopes.last()[name])
    } else {
        lookup_of(scopes.drop_last(), name)
    }
}

/// `info` is a sequence, reserved or not.
pub open spec fn is_vector(info: Option<VarInfo>) -> bool {
    match info {
        Some(VarInfo::Vector { reserved }) => true,
        _ => false,
    }
}

/// The scopes once `name` is marked as reserved: the innermost scope that
/// declares `name` as a sequence holds it as a reserved one. A scope that
/// declares the name as something else is passed over.
pub open spec fn mark_reserved_of(scopes: Seq<Map<Seq<char>, VarInfo>>, name: Seq<char>) -> Seq<
    Map<Seq<char>, VarInfo>,
>
    decreases scopes.len(),
{
    if scopes.len() == 0 {
        scopes
    } else if is_vector(get_of(scopes.last(), name)) {
        scopes.drop_last().push(scopes.last().insert(name, VarInfo::Vector { reserved: true }))
    } else {
        mark_reserved_of(scopes.drop_last(), name).push(scopes.last())
    }
}

/// The maps of a stack of scopes, outermost first.
pub open spec fn scope_maps(scopes: Seq<Scope>) -> Seq<Map<Seq<char>, VarInfo>> {
    Seq::new(scopes.len(), |i: int| scopes[i]@)
}

/// The class of `name` in the innermost of `scopes` that declares it.
pub fn lookup(scopes: &Vec<Scope>, name: &[char]) -> (r: Option<VarInfo>)
    ensures
        r == lookup_of(scope_maps(scopes@), name@),
{
    let mut j: usize = scopes.len();
    proof {
        assert(scope_maps(scopes@).subrange(0, j as int) =~= scope_maps(scopes@));
    }
    while j > 0
        invariant
            0 <= j <= scopes@.len(),
            lookup_of(scope_maps(scopes@).subrange(0, j as int), name@) == lookup_of(
                scope_maps(scopes@),
                name@,
            ),
        decreases j,
    {
        proof {
            let maps = scope_maps(scopes@).subrange(0, j as int);
            assert(maps.drop_last() =~= scope_maps(scopes@).subrange(0, j - 1));
            assert(maps.last() == scopes@[j - 1]@);
        }
        j -= 1;
        match scopes[j].get(name) {
            Some(info) => {
                return Some(info);
            },
            None => {},
        }
    }
    proof {
        assert(scope_maps(scopes@).subrange(0, 0) =~= Seq::empty());
    }
    None
}

/// After the call the innermost scope that held `name` as a sequence holds
/// it as a reserved one.
pub fn mark_reserved(scopes: &mut Vec<Scope>, name: &[char])
    ensures
        scope_maps(final(scopes)@) == mark_reserved_of(scope_maps(old(scopes)@), name@),
{
    let ghost before = scope_maps(scopes@);
    let mut j: usize = scopes.len();
    proof {
        assert(before.subrange(0, j as int) =~= before);
        assert(before.subrange(j as int, before.len() as int) =~= Seq::empty());
        assert(mark_reserved_of(before, name@) + Seq::empty() =~= mark_reserved_of(before, name@));
    }
    while j > 0
        invariant
            0 <= j <= scopes@.len(),
            scope_maps(scopes@) == before,
            before == scope_maps(old(scopes)@),
            mark_reserved_of(before, name@) == mark_reserved_of(before.subrange(0, j as int), name@)
                + before.subrange(j as int, before.len() as int),
        decreases j,
    {
        proof {
            let maps = before.subrange(0, j as int);
            assert(maps.drop_last() =~= before.subrange(0, j - 1));
            assert(maps.last() == before[j - 1]);
            assert(before.subrange(j - 1, before.len() as int) =~= seq![before[j - 1]]
                + before.subrange(j as int, before.len() as int));
            assert(mark_reserved_of(before.subrange(0, j - 1), name@).push(before[j - 1])
                + before.subrange(j as int, before.len() as int) =~= mark_reserved_of(
                before.subrange(0, j - 1),
                name@,
            ) + before.subrange(j - 1, before.len() as int));
        }
        j -= 1;
        match scopes[j].get(name) {
            Some(VarInfo::Vector { reserved }) => {
                scopes[j].insert(name, VarInfo::Vector { reserved: true });
                proof {
                    let maps = before.subrange(0, j + 1);
                    assert(maps.drop_last() =~= before.subrange(0, j as int));
                    assert(maps.last() == before[j as int]);
                    assert(is_vector(get_of(maps.last(), name@)));
                    assert(mark_reserved_of(maps, name@) == before.subrange(0, j as int).push(
                        before[j as int].insert(name@, VarInfo::Vector { reserved: true }),
                    ));
                    assert(scope_maps(scopes@) =~= before.subrange(0, j as int).push(
                        before[j as int].insert(name@, VarInfo::Vector { reserved: true }),
                    ) + before.subrange(j + 1, before.len() as int));
                }
                return ;
            },
            _ => {},
        }
    }
    proof {
        assert(before.subrange(0, 0) =~= Seq::empty());
        assert(mark_reserved_of(before.subrange(0, 0), name@) + before.subrange(
            0,
            before.len() as int,
        ) =~= before);
    }
}

} // verus!
