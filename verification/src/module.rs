//! Modules: named groups of Rust hooks that scripts can call. The names of
//! protected modules, which the interpreter itself provides, start with `#`.
use crate::error::StckError;
use crate::internals::RustStckFn;
use vstd::prelude::*;

verus! {

/// The index of the first hook named `k` at or after `i`.
pub open spec fn hook_index_from(s: Seq<RustStckFn>, k: Seq<char>, i: int) -> Option<int>
    decreases s.len() - i,
{
    if i < 0 || i >= s.len() {
        None
    } else if s[i].name@ == k {
        Some(i)
    } else {
        hook_index_from(s, k, i + 1)
    }
}

/// The index of the first hook named `k`.
pub open spec fn hook_index(s: Seq<RustStckFn>, k: Seq<char>) -> Option<int> {
    hook_index_from(s, k, 0)
}

pub proof fn lemma_hook_index_from(s: Seq<RustStckFn>, k: Seq<char>, i: int)
    requires
        0 <= i,
    ensures
        hook_index_from(s, k, i) matches Some(j) ==> i <= j < s.len() && s[j].name@ == k && forall|m: int|
            i <= m < j ==> s[m].name@ != k,
        hook_index_from(s, k, i) is None ==> forall|m: int| i <= m < s.len() ==> s[m].name@ != k,
    decreases s.len() - i,
{
    if i < s.len() && s[i].name@ != k {
        lemma_hook_index_from(s, k, i + 1);
    }
}

/// Adds a hook to a list: it replaces the first hook of the same name, which
/// is given back, or it is added at the end.
pub fn insert_hook(v: &mut Vec<RustStckFn>, h: RustStckFn) -> (r: Option<RustStckFn>)
    ensures
        match hook_index(old(v)@, h.name@) {
            Some(i) => r == Some(old(v)@[i]) && final(v)@ == old(v)@.update(i, h),
            None => r is None && final(v)@ == old(v)@.push(h),
        },
{
    let mut i: usize = 0;
    while i < v.len()
        invariant
            i <= v@.len(),
            v@ == old(v)@,
            hook_index(v@, h.name@) == hook_index_from(v@, h.name@, i as int),
        decreases v@.len() - i,
    {
        if crate::text::string_eq(&v[i].name, &h.name) {
            let ghost old_v = v@;
            let mut replaced = h;
            std::mem::swap(&mut replaced, &mut v[i]);
            proof {
                assert(v@ =~= old_v.update(i as int, h));
            }
            return Some(replaced);
        }
        i += 1;
    }
    v.push(h);
    None
}

/// A named group of hooks.
pub struct Module {
    pub name: String,
    pub funcs: Vec<RustStckFn>,
}

/// Whether a name is that of a protected module.
pub open spec fn protected_name(name: Seq<char>) -> bool {
    name.len() > 0 && name[0] == '#'
}

fn starts_with_bang(name: &String) -> (r: bool)
    ensures
        r == protected_name(name@),
{
    let cs = crate::text::chars_of_string(name);
    cs.len() > 0 && cs[0] == '#'
}

impl Module {
    /// A user module with no hook; its name may not start with `#`.
    pub fn new(name: String) -> (r: Result<Module, StckError>)
        ensures
            protected_name(name@) ==> r == Err::<Module, StckError>(StckError::UserModuleWithBang(name)),
            !protected_name(name@) ==> (r matches Ok(m) && m.name == name && m.funcs@.len() == 0),
    {
        if starts_with_bang(&name) {
            Err(StckError::UserModuleWithBang(name))
        } else {
            Ok(Module { name, funcs: Vec::new() })
        }
    }

    /// A protected module with no hook; its name must start with `#`.
    pub fn new_protected(name: String) -> (r: Result<Module, StckError>)
        ensures
            !protected_name(name@) ==> r == Err::<Module, StckError>(StckError::ProtectedModuleWithoutBang(name)),
            protected_name(name@) ==> (r matches Ok(m) && m.name == name && m.funcs@.len() == 0),
    {
        if starts_with_bang(&name) {
            Ok(Module { name, funcs: Vec::new() })
        } else {
            Err(StckError::ProtectedModuleWithoutBang(name))
        }
    }

    /// Adds a named hook; a hook of the same name is replaced and given
    /// back.
    pub fn add_fn(&mut self, fnc: RustStckFn) -> (r: Option<RustStckFn>)
        ensures
            final(self).name == old(self).name,
            match hook_index(old(self).funcs@, fnc.name@) {
                Some(i) => r == Some(old(self).funcs@[i]) && final(self).funcs@ == old(self).funcs@.update(i, fnc),
                None => r is None && final(self).funcs@ == old(self).funcs@.push(fnc),
            },
    {
        insert_hook(&mut self.funcs, fnc)
    }
}

} // verus!
