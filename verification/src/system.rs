//! Systems: functions that run over data taken from the world.
//!
//! Running a system is one linear pass: the data of every parameter is
//! taken from the world, in the order of the parameters; each is fetched as
//! the borrow that its parameter asks for; the function is called with the
//! world and with exactly those borrows; then every datum is given back, in
//! the same order.
//!
//! What a pass does is what its steps do one after the other. The contracts
//! say so by naming, for each step, the borrow of the world that the step
//! was handed: its value at the time is the world as the step found it, and
//! its final value is the world as the step left it.

use vstd::prelude::*;
use core::marker::PhantomData;
use crate::error::EcsError;
use crate::world::{World, WorldData};

verus! {

/// Something that runs once over a world.
pub trait System<P> {
    /// Runs the system once. It fails where the data of a parameter cannot
    /// be taken; the function is not called then.
    fn execute(&self, world: &mut World<P>) -> Result<(), EcsError>;
}

/// A function together with the parameters that it runs over. `Params`
/// tells the parameters apart: one kind of world data, or a pair of kinds.
pub trait SystemParamFn<P, Params> {
    /// Takes the data of each parameter, calls the function with them, and
    /// gives them back. It fails where the data of a parameter cannot be
    /// taken; what was taken before is given back, and the function is not
    /// called.
    fn execute(&self, world: &mut World<P>) -> Result<(), EcsError>;
}

/// A parameter position of a system: a kind of world data, together with
/// the mode in which the function borrows what was taken.
pub trait SystemParam<P> {
    /// The kind of world data.
    type Value: WorldData<P>;

    /// The borrow that is handed to the function.
    type Result<'a>;

    /// The kind of world data that the parameter is taken from.
    spec fn kind(&self) -> Self::Value;

    /// The kind of world data that the parameter is taken from.
    fn value(&self) -> (value: &Self::Value)
        ensures
            *value == self.kind(),
    ;

    /// Turns what was taken into the borrow that the function asks for.
    fn fetch<'a>(data: &'a mut <Self::Value as WorldData<P>>::Data) -> Self::Result<'a>;
}

/// The parameter that borrows what was taken for reading.
pub struct ByRef<D>(pub D);

/// The parameter that borrows what was taken for reading and writing.
pub struct ByMut<D>(pub D);

impl<P, D: WorldData<P>> SystemParam<P> for ByRef<D> {
    type Value = D;

    type Result<'a> = &'a D::Data;

    open spec fn kind(&self) -> D {
        self.0
    }

    fn value(&self) -> (value: &D) {
        &self.0
    }

    fn fetch<'a>(data: &'a mut D::Data) -> (fetched: &'a D::Data)
        ensures
            *fetched == *old(data),
            *final(data) == *old(data),
    {
        &*data
    }
}

impl<P, D: WorldData<P>> SystemParam<P> for ByMut<D> {
    type Value = D;

    type Result<'a> = &'a mut D::Data;

    open spec fn kind(&self) -> D {
        self.0
    }

    fn value(&self) -> (value: &D) {
        &self.0
    }

    fn fetch<'a>(data: &'a mut D::Data) -> (fetched: &'a mut D::Data)
        ensures
            *fetched == *old(data),
            *final(data) == *final(fetched),
    {
        data
    }
}

/// A function of one parameter, together with its parameter.
pub struct SystemFunction<
    P,
    S: SystemParam<P>,
    F: for <'a>Fn(&'a mut World<P>, S::Result<'a>),
> {
    param: S,
    function: F,
    world: PhantomData<P>,
}

impl<P, S: SystemParam<P>, F: for <'a>Fn(&'a mut World<P>, S::Result<'a>)> SystemFunction<
    P,
    S,
    F,
> {
    /// The invariant of the type: the function accepts every world and
    /// every borrow of what its parameter takes.
    #[verifier::type_invariant]
    pub closed spec fn callable(&self) -> bool {
        forall|world: &mut World<P>, data: S::Result<'_>| #[trigger]
            call_requires(self.function, (world, data))
    }

    /// The parameter.
    pub closed spec fn param(&self) -> S {
        self.param
    }

    /// The function that is run.
    pub closed spec fn function(&self) -> F {
        self.function
    }

    /// The system that runs `function` over what `param` takes.
    pub fn new(param: S, function: F) -> (system: Self)
        requires
            forall|world: &mut World<P>, data: S::Result<'_>| #[trigger]
                call_requires(function, (world, data)),
        ensures
            system.param() == param,
            system.function() == function,
    {
        SystemFunction { param, function, world: PhantomData }
    }
}

impl<P, S: SystemParam<P>, F: for <'a>Fn(&'a mut World<P>, S::Result<'a>)> SystemParamFn<
    P,
    S,
> for SystemFunction<P, S, F> {
    /// One pass: take, fetch, call, release. Where the take fails, the
    /// pass ends with its error and the world as the take left it.
    /// Otherwise what was taken is fetched as the borrow that the function
    /// asks for, the function is called with the world and that borrow,
    /// and what is left of the data is given back.
    fn execute(&self, world: &mut World<P>) -> (done: Result<(), EcsError>)
        ensures
            match done {
                Err(e) => exists|taking: &mut World<P>|
                    {
                        &&& *taking == *old(world)
                        &&& call_ensures(
                            <S::Value as WorldData<P>>::take,
                            (&self.param().kind(), taking),
                            Err::<<S::Value as WorldData<P>>::Data, EcsError>(e),
                        )
                        &&& *final(world) == *final(taking)
                    },
                Ok(()) => exists|
                    taking: &mut World<P>,
                    data: &mut <S::Value as WorldData<P>>::Data,
                    fetched: S::Result<'_>,
                    calling: &mut World<P>,
                    releasing: &mut World<P>,
                |
                    {
                        &&& *taking == *old(world)
                        &&& call_ensures(
                            <S::Value as WorldData<P>>::take,
                            (&self.param().kind(), taking),
                            Ok::<<S::Value as WorldData<P>>::Data, EcsError>(*data),
                        )
                        &&& call_ensures(<S as SystemParam<P>>::fetch, (data,), fetched)
                        &&& *calling == *final(taking)
                        &&& call_ensures(self.function(), (calling, fetched), ())
                        &&& *releasing == *final(calling)
                        &&& call_ensures(
                            <S::Value as WorldData<P>>::release,
                            (&self.param().kind(), *final(data), releasing),
                            (),
                        )
                        &&& *final(world) == *final(releasing)
                    },
            },
    {
        proof {
            use_type_invariant(self);
        }
        let ghost before = *world;
        let taken = self.param.value().take(world);
        let ghost after_take = *world;
        let ghost taking = choose|taking: &mut World<P>|
            *taking == before && *final(taking) == after_take && call_ensures(
                <S::Value as WorldData<P>>::take,
                (&self.param.kind(), taking),
                taken,
            );
        let mut data = match taken {
            Ok(data) => data,
            Err(e) => {
                return Err(e);
            },
        };
        let ghost handed = data;
        let fetched = S::fetch(&mut data);
        let ghost lent = fetched;
        (self.function)(world, fetched);
        let ghost after_call = *world;
        let ghost returned = data;
        let ghost borrowed = choose|borrowed: &mut <S::Value as WorldData<P>>::Data|
            *borrowed == handed && *final(borrowed) == returned && call_ensures(
                <S as SystemParam<P>>::fetch,
                (borrowed,),
                lent,
            );
        let ghost calling = choose|calling: &mut World<P>|
            *calling == after_take && *final(calling) == after_call && call_ensures(
                self.function,
                (calling, lent),
                (),
            );
        self.param.value().release(data, world);
        let ghost releasing = choose|releasing: &mut World<P>|
            *releasing == after_call && *final(releasing) == *world && call_ensures(
                <S::Value as WorldData<P>>::release,
                (&self.param.kind(), returned, releasing),
                (),
            );
        assert({
            &&& *taking == before
            &&& call_ensures(
                <S::Value as WorldData<P>>::take,
                (&self.param().kind(), taking),
                Ok::<<S::Value as WorldData<P>>::Data, EcsError>(*borrowed),
            )
            &&& call_ensures(<S as SystemParam<P>>::fetch, (borrowed,), lent)
            &&& *calling == *final(taking)
            &&& call_ensures(self.function(), (calling, lent), ())
            &&& *releasing == *final(calling)
            &&& call_ensures(
                <S::Value as WorldData<P>>::release,
                (&self.param().kind(), *final(borrowed), releasing),
                (),
            )
            &&& *world == *final(releasing)
        });
        Ok(())
    }
}

/// A function of two parameters, together with its parameters.
pub struct SystemFunction2<
    P,
    X: SystemParam<P>,
    Y: SystemParam<P>,
    F: for <'a>Fn(&'a mut World<P>, X::Result<'a>, Y::Result<'a>),
> {
    first: X,
    second: Y,
    function: F,
    world: PhantomData<P>,
}

impl<
    P,
    X: SystemParam<P>,
    Y: SystemParam<P>,
    F: for <'a>Fn(&'a mut World<P>, X::Result<'a>, Y::Result<'a>),
> SystemFunction2<P, X, Y, F> {
    /// The invariant of the type: the function accepts every world and
    /// every borrow of what its parameters take.
    #[verifier::type_invariant]
    pub closed spec fn callable(&self) -> bool {
        forall|world: &mut World<P>, x: X::Result<'_>, y: Y::Result<'_>| #[trigger]
            call_requires(self.function, (world, x, y))
    }

    /// The first parameter.
    pub closed spec fn first(&self) -> X {
        self.first
    }

    /// The second parameter.
    pub closed spec fn second(&self) -> Y {
        self.second
    }

    /// The function that is run.
    pub closed spec fn function(&self) -> F {
        self.function
    }

    /// The system that runs `function` over what `first` and `second` take.
    pub fn new(first: X, second: Y, function: F) -> (system: Self)
        requires
            forall|world: &mut World<P>, x: X::Result<'_>, y: Y::Result<'_>| #[trigger]
                call_requires(function, (world, x, y)),
        ensures
            system.first() == first,
            system.second() == second,
            system.function() == function,
    {
        SystemFunction2 { first, second, function, world: PhantomData }
    }
}

impl<
    P,
    X: SystemParam<P>,
    Y: SystemParam<P>,
    F: for <'a>Fn(&'a mut World<P>, X::Result<'a>, Y::Result<'a>),
> SystemParamFn<P, (X, Y)> for SystemFunction2<P, X, Y, F> {
    /// One pass: take both, fetch both, call, release both, each time the
    /// first parameter before the second. Where the first take fails, the
    /// pass ends with its error. Where the second take fails, what the
    /// first took is given back, and the pass ends with the error.
    fn execute(&self, world: &mut World<P>) -> (done: Result<(), EcsError>)
        ensures
            match done {
                Err(e) => {
                    ||| exists|taking: &mut World<P>|
                        {
                            &&& *taking == *old(world)
                            &&& call_ensures(
                                <X::Value as WorldData<P>>::take,
                                (&self.first().kind(), taking),
                                Err::<<X::Value as WorldData<P>>::Data, EcsError>(e),
                            )
                            &&& *final(world) == *final(taking)
                        }
                    ||| exists|
                        taking: &mut World<P>,
                        x: <X::Value as WorldData<P>>::Data,
                        taking_next: &mut World<P>,
                        releasing: &mut World<P>,
                    |
                        {
                            &&& *taking == *old(world)
                            &&& call_ensures(
                                <X::Value as WorldData<P>>::take,
                                (&self.first().kind(), taking),
                                Ok::<<X::Value as WorldData<P>>::Data, EcsError>(x),
                            )
                            &&& *taking_next == *final(taking)
                            &&& call_ensures(
                                <Y::Value as WorldData<P>>::take,
                                (&self.second().kind(), taking_next),
                                Err::<<Y::Value as WorldData<P>>::Data, EcsError>(e),
                            )
                            &&& *releasing == *final(taking_next)
                            &&& call_ensures(
                                <X::Value as WorldData<P>>::release,
                                (&self.first().kind(), x, releasing),
                                (),
                            )
                            &&& *final(world) == *final(releasing)
                        }
                },
                Ok(()) => exists|
                    taking: &mut World<P>,
                    x: &mut <X::Value as WorldData<P>>::Data,
                    taking_next: &mut World<P>,
                    y: &mut <Y::Value as WorldData<P>>::Data,
                    fetched: X::Result<'_>,
                    fetched_next: Y::Result<'_>,
                    calling: &mut World<P>,
                    releasing: &mut World<P>,
                    releasing_next: &mut World<P>,
                |
                    {
                        &&& *taking == *old(world)
                        &&& call_ensures(
                            <X::Value as WorldData<P>>::take,
                            (&self.first().kind(), taking),
                            Ok::<<X::Value as WorldData<P>>::Data, EcsError>(*x),
                        )
                        &&& *taking_next == *final(taking)
                        &&& call_ensures(
                            <Y::Value as WorldData<P>>::take,
                            (&self.second().kind(), taking_next),
                            Ok::<<Y::Value as WorldData<P>>::Data, EcsError>(*y),
                        )
                        &&& call_ensures(<X as SystemParam<P>>::fetch, (x,), fetched)
                        &&& call_ensures(<Y as SystemParam<P>>::fetch, (y,), fetched_next)
                        &&& *calling == *final(taking_next)
                        &&& call_ensures(self.function(), (calling, fetched, fetched_next), ())
                        &&& *releasing == *final(calling)
                        &&& call_ensures(
                            <X::Value as WorldData<P>>::release,
                            (&self.first().kind(), *final(x), releasing),
                            (),
                        )
                        &&& *releasing_next == *final(releasing)
                        &&& call_ensures(
                            <Y::Value as WorldData<P>>::release,
                            (&self.second().kind(), *final(y), releasing_next),
                            (),
                        )
                        &&& *final(world) == *final(releasing_next)
                    },
            },
    {
        proof {
            use_type_invariant(self);
        }
        let ghost before = *world;
        let taken = self.first.value().take(world);
        let ghost after_take = *world;
        let ghost taking = choose|taking: &mut World<P>|
            *taking == before && *final(taking) == after_take && call_ensures(
                <X::Value as WorldData<P>>::take,
                (&self.first.kind(), taking),
                taken,
            );
        let mut x = match taken {
            Ok(x) => x,
            Err(e) => {
                return Err(e);
            },
        };
        let taken_next = self.second.value().take(world);
        let ghost after_takes = *world;
        let ghost taking_next = choose|taking_next: &mut World<P>|
            *taking_next == after_take && *final(taking_next) == after_takes && call_ensures(
                <Y::Value as WorldData<P>>::take,
                (&self.second.kind(), taking_next),
                taken_next,
            );
        let mut y = match taken_next {
            Ok(y) => y,
            Err(e) => {
                let ghost handed = x;
                self.first.value().release(x, world);
                let ghost releasing = choose|releasing: &mut World<P>|
                    *releasing == after_takes && *final(releasing) == *world && call_ensures(
                        <X::Value as WorldData<P>>::release,
                        (&self.first.kind(), handed, releasing),
                        (),
                    );
                return Err(e);
            },
        };
        let ghost handed = (x, y);
        let fetched = X::fetch(&mut x);
        let fetched_next = Y::fetch(&mut y);
        let ghost lent = (fetched, fetched_next);
        (self.function)(world, fetched, fetched_next);
        let ghost after_call = *world;
        let ghost returned = (x, y);
        let ghost first = choose|first: &mut <X::Value as WorldData<P>>::Data|
            *first == handed.0 && *final(first) == returned.0 && call_ensures(
                <X as SystemParam<P>>::fetch,
                (first,),
                lent.0,
            );
        let ghost second = choose|second: &mut <Y::Value as WorldData<P>>::Data|
            *second == handed.1 && *final(second) == returned.1 && call_ensures(
                <Y as SystemParam<P>>::fetch,
                (second,),
                lent.1,
            );
        let ghost calling = choose|calling: &mut World<P>|
            *calling == after_takes && *final(calling) == after_call && call_ensures(
                self.function,
                (calling, lent.0, lent.1),
                (),
            );
        self.first.value().release(x, world);
        let ghost after_release = *world;
        let ghost releasing = choose|releasing: &mut World<P>|
            *releasing == after_call && *final(releasing) == after_release && call_ensures(
                <X::Value as WorldData<P>>::release,
                (&self.first.kind(), returned.0, releasing),
                (),
            );
        self.second.value().release(y, world);
        let ghost releasing_next = choose|releasing_next: &mut World<P>|
            *releasing_next == after_release && *final(releasing_next) == *world && call_ensures(
                <Y::Value as WorldData<P>>::release,
                (&self.second.kind(), returned.1, releasing_next),
                (),
            );
        assert({
            &&& *taking == before
            &&& call_ensures(
                <X::Value as WorldData<P>>::take,
                (&self.first().kind(), taking),
                Ok::<<X::Value as WorldData<P>>::Data, EcsError>(*first),
            )
            &&& *taking_next == *final(taking)
            &&& call_ensures(
                <Y::Value as WorldData<P>>::take,
                (&self.second().kind(), taking_next),
                Ok::<<Y::Value as WorldData<P>>::Data, EcsError>(*second),
            )
            &&& call_ensures(<X as SystemParam<P>>::fetch, (first,), lent.0)
            &&& call_ensures(<Y as SystemParam<P>>::fetch, (second,), lent.1)
            &&& *calling == *final(taking_next)
            &&& call_ensures(self.function(), (calling, lent.0, lent.1), ())
            &&& *releasing == *final(calling)
            &&& call_ensures(
                <X::Value as WorldData<P>>::release,
                (&self.first().kind(), *final(first), releasing),
                (),
            )
            &&& *releasing_next == *final(releasing)
            &&& call_ensures(
                <Y::Value as WorldData<P>>::release,
                (&self.second().kind(), *final(second), releasing_next),
                (),
            )
            &&& *world == *final(releasing_next)
        });
        Ok(())
    }
}

/// Whether `system`, run on the borrow `pass` of a world, may hand back
/// `done`: the value of `pass` is the world as the system finds it, and its
/// final value is the world as the system leaves it.
pub open spec fn system_runs<P, S: System<P> + ?Sized>(
    system: &S,
    pass: &mut World<P>,
    done: Result<(), EcsError>,
) -> bool {
    call_ensures(<S as System<P>>::execute, (system, pass), done)
}

/// Whether `function`, run with its parameters on the borrow `pass` of a
/// world, may hand back `done`: the value of `pass` is the world as the
/// function finds it, and its final value is the world as it leaves it.
pub open spec fn function_runs<P, Params, F: SystemParamFn<P, Params> + ?Sized>(
    function: &F,
    pass: &mut World<P>,
    done: Result<(), EcsError>,
) -> bool {
    call_ensures(<F as SystemParamFn<P, Params>>::execute, (function, pass), done)
}

/// Runs `system` once, whatever kind of system it is.
fn run_system<P, S: System<P> + ?Sized>(system: &S, world: &mut World<P>) -> (done: Result<
    (),
    EcsError,
>)
    ensures
        exists|pass: &mut World<P>|
            {
                &&& *pass == *old(world)
                &&& #[trigger] system_runs(system, pass, done)
                &&& *final(world) == *final(pass)
            },
{
    let ghost before = *world;
    let done = system.execute(world);
    proof {
        let pass = choose|pass: &mut World<P>|
            *pass == before && *final(pass) == *world && call_ensures(
                <S as System<P>>::execute,
                (system, pass),
                done,
            );
        assert(system_runs(system, pass, done));
    }
    done
}

/// Runs `function` once with its parameters, whatever function it is.
fn run_function<P, Params, F: SystemParamFn<P, Params> + ?Sized>(
    function: &F,
    world: &mut World<P>,
) -> (done: Result<(), EcsError>)
    ensures
        exists|pass: &mut World<P>|
            {
                &&& *pass == *old(world)
                &&& #[trigger] function_runs(function, pass, done)
                &&& *final(world) == *final(pass)
            },
{
    let ghost before = *world;
    let done = function.execute(world);
    proof {
        let pass = choose|pass: &mut World<P>|
            *pass == before && *final(pass) == *world && call_ensures(
                <F as SystemParamFn<P, Params>>::execute,
                (function, pass),
                done,
            );
        assert(function_runs(function, pass, done));
    }
    done
}

/// A function with its parameters, behind one type for every function of
/// the same parameters.
#[verifier::reject_recursive_types(P)]
#[verifier::reject_recursive_types(Params)]
pub struct SystemStore<P, Params>(pub Box<dyn SystemParamFn<P, Params>>);

impl<P, Params> System<P> for SystemStore<P, Params> {
    /// Runs the function that is stored: the world is handed to it as it
    /// is, what it hands back is handed back, and the world is left as it
    /// leaves it.
    fn execute(&self, world: &mut World<P>) -> (done: Result<(), EcsError>)
        ensures
            exists|pass: &mut World<P>|
                {
                    &&& *pass == *old(world)
                    &&& #[trigger] function_runs(&*self.0, pass, done)
                    &&& *final(world) == *final(pass)
                },
    {
        run_function(&*self.0, world)
    }
}

/// What can be made into a system.
pub trait IntoSystem<P, S: System<P>> {
    /// Makes the system.
    fn into_system(self) -> S;
}

impl<P, Params, F: SystemParamFn<P, Params> + 'static> IntoSystem<P, SystemStore<P, Params>> for F {
    /// Stores the function behind the common type of its parameters: what
    /// is stored is the function itself.
    fn into_system(self) -> (system: SystemStore<P, Params>)
        ensures
            system == SystemStore::<P, Params>(Box::new(self)),
    {
        SystemStore(Box::new(self))
    }
}

/// A registered system, behind one type for every kind of system.
#[verifier::reject_recursive_types(P)]
pub struct Registered<P>(pub Box<dyn System<P>>);

impl<P> Registered<P> {
    /// Puts `system` behind the common type: what is registered is the
    /// system itself.
    pub fn new<Sys: System<P> + 'static>(system: Sys) -> (registered: Self)
        ensures
            registered == Registered::<P>(Box::new(system)),
    {
        Registered(Box::new(system))
    }
}

impl<P> System<P> for Registered<P> {
    /// Runs the system that is registered: the world is handed to it as it
    /// is, what it hands back is handed back, and the world is left as it
    /// leaves it.
    fn execute(&self, world: &mut World<P>) -> (done: Result<(), EcsError>)
        ensures
            exists|pass: &mut World<P>|
                {
                    &&& *pass == *old(world)
                    &&& #[trigger] system_runs(&*self.0, pass, done)
                    &&& *final(world) == *final(pass)
                },
    {
        run_system(&*self.0, world)
    }
}

/// The systems of a program, in the order in which they were registered.
#[verifier::reject_recursive_types(P)]
pub struct Systems<P>(pub Vec<Registered<P>>);

impl<P> Systems<P> {
    /// No systems.
    pub fn new() -> (systems: Self)
        ensures
            systems.0.len() == 0,
    {
        Systems(Vec::new())
    }

    /// Registers `system` as the last of the systems.
    pub fn push<Sys: System<P> + 'static, I: IntoSystem<P, Sys>>(&mut self, system: I)
        ensures
            exists|made: Sys|
                {
                    &&& call_ensures(<I as IntoSystem<P, Sys>>::into_system, (system,), made)
                    &&& call_ensures(Registered::<P>::new::<Sys>, (made,), final(self).0@.last())
                    &&& final(self).0@ == old(self).0@.push(final(self).0@.last())
                },
    {
        let made = system.into_system();
        let registered = Registered::new(made);
        let ghost last = registered;
        self.0.push(registered);
        assert(self.0@.last() == last);
    }

    /// Runs every system once, in the order in which they were registered.
    /// It stops at the first system that fails, and hands its error back.
    ///
    /// In the contract, `passes` holds for each system that ran the world
    /// as it found it, the world as it left it, and what it handed back.
    /// The first system found the world as it was, each further one found
    /// it as the one before left it, and the world is in the end as the last
    /// one left it. Only the last one may have failed, and where none
    /// failed, every system ran.
    pub fn run(&self, world: &mut World<P>) -> (done: Result<(), EcsError>)
        ensures
            exists|passes: Seq<(World<P>, World<P>, Result<(), EcsError>)>|
                #![trigger passes.len()]
                {
                    &&& passes.len() <= self.0.len()
                    &&& forall|i: int|
                        #![trigger passes[i]]
                        0 <= i < passes.len() ==> exists|pass: &mut World<P>|
                            {
                                &&& *pass == passes[i].0
                                &&& *final(pass) == passes[i].1
                                &&& call_ensures(
                                    <Registered<P> as System<P>>::execute,
                                    (&self.0[i], pass),
                                    passes[i].2,
                                )
                            }
                    &&& forall|i: int|
                        #![trigger passes[i]]
                        0 <= i < passes.len() ==> passes[i].0 == if i == 0 {
                            *old(world)
                        } else {
                            passes[i - 1].1
                        }
                    &&& forall|i: int|
                        #![trigger passes[i]]
                        0 <= i < passes.len() - 1 ==> passes[i].2 is Ok
                    &&& if passes.len() == 0 {
                        &&& self.0.len() == 0
                        &&& done is Ok
                        &&& *final(world) == *old(world)
                    } else {
                        &&& done is Ok ==> passes.last().2 is Ok && passes.len() == self.0.len()
                        &&& done is Err ==> passes.last().2 == done
                        &&& *final(world) == passes.last().1
                    }
                },
    {
        let ghost before = *world;
        let ghost mut passes: Seq<(World<P>, World<P>, Result<(), EcsError>)> = Seq::empty();
        let mut i: usize = 0;
        while i < self.0.len()
            invariant
                i <= self.0.len(),
                before == *old(world),
                passes.len() == i,
                forall|j: int|
                    #![trigger passes[j]]
                    0 <= j < passes.len() ==> exists|pass: &mut World<P>|
                        {
                            &&& *pass == passes[j].0
                            &&& *final(pass) == passes[j].1
                            &&& call_ensures(
                                <Registered<P> as System<P>>::execute,
                                (&self.0[j], pass),
                                passes[j].2,
                            )
                        },
                forall|j: int|
                    #![trigger passes[j]]
                    0 <= j < passes.len() ==> passes[j].0 == if j == 0 {
                        before
                    } else {
                        passes[j - 1].1
                    },
                forall|j: int| #![trigger passes[j]] 0 <= j < passes.len() ==> passes[j].2 is Ok,
                *world == if passes.len() == 0 {
                    before
                } else {
                    passes.last().1
                },
            decreases self.0.len() - i,
        {
            let ghost found = *world;
            let ghost earlier = passes;
            let done = self.0[i].execute(world);
            proof {
                passes = earlier.push((found, *world, done));
                assert forall|j: int|
                    #![trigger passes[j]]
                    0 <= j < passes.len() - 1 implies passes[j].2 is Ok by {
                }
            }
            match done {
                Ok(()) => {},
                Err(e) => {
                    return Err(e);
                },
            }
            i = i + 1;
        }
        Ok(())
    }
}

impl<P> Default for Systems<P> {
    fn default() -> (systems: Self)
        ensures
            systems.0.len() == 0,
    {
        Systems::new()
    }
}

} // verus!
