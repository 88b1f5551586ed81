//! Calling a function with named arguments that can be overridden.
//!
//! A dispatcher collects `(name, value)` pairs. A name keeps the place at
//! which it was first set; setting it again replaces its value. `call` hands
//! the values, in the order of their names, to the wrapped function.

use vstd::prelude::*;

verus! {

/// `str::eq`: two string slices are equal exactly when they hold the same
/// characters.
#[verifier::external_body]
fn same_name(a: &str, b: &str) -> (r: bool)
    ensures
        r == (a@ == b@),
{
    a == b
}

/// The names after `name` has been set: unchanged if it is already among
/// them, else with `name` at the end.
pub open spec fn names_after_set(names: Seq<Seq<char>>, name: Seq<char>) -> Seq<Seq<char>> {
    if names.contains(name) {
        names
    } else {
        names.push(name)
    }
}

/// The values after `name` has been set to `value`: the value in the place of
/// `name` is replaced if the name is already set, else `value` comes last.
pub open spec fn values_after_set<AT>(
    names: Seq<Seq<char>>,
    values: Seq<AT>,
    name: Seq<char>,
    value: AT,
) -> Seq<AT> {
    if names.contains(name) {
        values.update(names.index_of(name), value)
    } else {
        values.push(value)
    }
}

/// Setting a name keeps the names distinct and every earlier name in its
/// place, and gives the name exactly one place, which holds the new value.
pub proof fn lemma_set_places_name<AT>(
    names: Seq<Seq<char>>,
    values: Seq<AT>,
    name: Seq<char>,
    value: AT,
)
    requires
        names.len() == values.len(),
        names.no_duplicates(),
    ensures
        ({
            let n = names_after_set(names, name);
            let v = values_after_set(names, values, name, value);
            &&& n.len() == v.len()
            &&& n.no_duplicates()
            &&& forall|i: int| 0 <= i < names.len() ==> n[i] == names[i]
            &&& 0 <= n.index_of(name) < n.len()
            &&& n[n.index_of(name)] == name
            &&& v[n.index_of(name)] == value
            &&& forall|i: int| 0 <= i < n.len() && n[i] == name ==> i == n.index_of(name)
            &&& forall|i: int| 0 <= i < values.len() && i != n.index_of(name) ==> v[i] == values[i]
        }),
{
    let n = names_after_set(names, name);
    if !names.contains(name) {
        assert(n[names.len() as int] == name);
    }
}

/// The last value set for a name wins: setting a name twice leaves the names
/// as the first setting left them, the name in its first place, and the
/// values as if only the second value had been set.
pub proof fn lemma_last_set_wins<AT>(
    names: Seq<Seq<char>>,
    values: Seq<AT>,
    name: Seq<char>,
    first: AT,
    second: AT,
)
    requires
        names.len() == values.len(),
        names.no_duplicates(),
    ensures
        ({
            let n1 = names_after_set(names, name);
            let v1 = values_after_set(names, values, name, first);
            &&& names_after_set(n1, name) == n1
            &&& values_after_set(n1, v1, name, second) == values_after_set(
                names,
                values,
                name,
                second,
            )
            &&& values_after_set(n1, v1, name, second)[n1.index_of(name)] == second
        }),
{
    let n1 = names_after_set(names, name);
    let v1 = values_after_set(names, values, name, first);
    lemma_set_places_name(names, values, name, first);
    assert(n1.contains(name));
    assert(values_after_set(n1, v1, name, second) =~= values_after_set(
        names,
        values,
        name,
        second,
    ));
}

/// Named arguments for a wrapped function: the names in the order in which
/// they were first set, and for each name its latest value.
#[derive(Debug)]
pub struct CSCDARG<'a, FT, AT> {
    func: FT,
    argn: Vec<&'a str>,
    argv: Vec<AT>,
}

impl<'a, FT, AT> CSCDARG<'a, FT, AT> {
    #[verifier::type_invariant]
    spec fn inv(self) -> bool {
        &&& self.argn@.len() == self.argv@.len()
        &&& self.names().no_duplicates()
    }

    /// The wrapped function.
    pub closed spec fn wrapped(self) -> FT {
        self.func
    }

    /// The names that have been set, in the order in which each was first set.
    pub closed spec fn names(self) -> Seq<Seq<char>> {
        Seq::new(self.argn@.len(), |i: int| self.argn@[i]@)
    }

    /// The vector that `call` hands to the wrapped function: at each place
    /// the latest value of the name at that place.
    pub closed spec fn arguments(self) -> Vec<AT> {
        self.argv
    }

    /// Shows what holds of every dispatcher: each name has one value, and no
    /// name occurs twice. It does no work when run.
    pub fn show_valid(&self)
        ensures
            self.names().no_duplicates(),
            self.names().len() == self.arguments()@.len(),
    {
        proof {
            use_type_invariant(self);
        }
    }

    /// A dispatcher around `func` with no name set.
    pub fn new(func: FT) -> (r: CSCDARG<'a, FT, AT>)
        ensures
            r.wrapped() == func,
            r.names() == Seq::<Seq<char>>::empty(),
            r.arguments()@ == Seq::<AT>::empty(),
    {
        CSCDARG { func, argn: Vec::new(), argv: Vec::new() }
    }

    /// Sets the name `arg.0` to the value `arg.1`. A name that was set before
    /// keeps its place and takes the new value; a new name goes to the end.
    pub fn set(self, arg: (&'a str, AT)) -> (r: Self)
        ensures
            r.wrapped() == self.wrapped(),
            r.names() == names_after_set(self.names(), arg.0@),
            r.arguments()@ == values_after_set(self.names(), self.arguments()@, arg.0@, arg.1),
            r.names().no_duplicates(),
            r.names().len() == r.arguments()@.len(),
    {
        proof {
            use_type_invariant(&self);
        }
        let ghost before = self.names();
        let CSCDARG { func, mut argn, mut argv } = self;
        let (name, value) = arg;
        let mut i: usize = 0;
        while i < argn.len() && !same_name(argn[i], name)
            invariant
                i <= argn@.len(),
                argn@.len() == argv@.len(),
                before == Seq::new(argn@.len(), |j: int| argn@[j]@),
                forall|j: int| 0 <= j < i ==> before[j] != name@,
            decreases argn@.len() - i,
        {
            i += 1;
        }
        if i < argn.len() {
            assert(before[i as int] == name@);
            assert(before.index_of(name@) == i);
            argv.set(i, value);
        } else {
            assert(!before.contains(name@));
            argn.push(name);
            argv.push(value);
            assert(Seq::new(argn@.len(), |j: int| argn@[j]@) =~= before.push(name@));
        }
        CSCDARG { func, argn, argv }
    }

    /// Calls the wrapped function on the values, in the order of their names,
    /// and returns what it returns.
    pub fn call<VT>(self) -> (r: VT) where FT: Fn(Vec<AT>) -> VT
        requires
            call_requires(self.wrapped(), (self.arguments(),)),
        ensures
            call_ensures(self.wrapped(), (self.arguments(),), r),
    {
        let CSCDARG { func, argn: _, argv } = self;
        func(argv)
    }
}

} // verus!
