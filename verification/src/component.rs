use vstd::prelude::*;

verus! {

/// Which way a row of confirmation buttons is laid out.
#[derive(Clone, Copy, PartialEq, Eq, Structural, Debug)]
pub enum Placement {
    Left,
    Right,
}

/// Helper to deal with components that are built from parameters and told
/// when those change.
pub trait Component<T>: Sized {
    /// The parameters the component was last given.
    spec fn params(&self) -> T;

    /// The component built from parameters.
    spec fn built(params: T) -> Self;

    /// The component after it was told of new parameters.
    spec fn told(&self, params: T) -> Self;

    /// Build the component.
    fn new(params: T) -> (c: Self)
        ensures
            c.params() == params,
            c == Self::built(params),
    ;

    /// Reinitialize the component with new parameters.
    fn changed(&mut self, params: T)
        ensures
            final(self).params() == params,
            *final(self) == old(self).told(params),
    ;
}

/// Brings a list of components in line with the data they show: the components there are kept
/// and told of their new parameters in order, so that what they hold survives where it may; more
/// are built where the data is longer, and those left over are dropped.
pub fn init_from_iter<C: Component<T>, T>(components: &mut Vec<C>, data: Vec<T>)
    ensures
        final(components)@.len() == data@.len(),
        forall|i: int| 0 <= i < data@.len() ==> (#[trigger] final(components)@[i]).params() == data@[i],
        forall|i: int|
            0 <= i < data@.len() && i < old(components)@.len() ==> #[trigger] final(components)@[i]
                == old(components)@[i].told(data@[i]),
        forall|i: int|
            old(components)@.len() <= i < data@.len() ==> #[trigger] final(components)@[i]
                == C::built(data@[i]),
{
    let ghost start = components@;
    let mut previous: Vec<C> = Vec::new();
    std::mem::swap(components, &mut previous);
    assert(previous@.skip(0) =~= previous@);
    let ghost orig = data@;
    let mut data = data;
    let n: usize = data.len();
    let mut i: usize = 0;
    while data.len() > 0
        invariant
            data@ == orig.skip(i as int),
            i <= orig.len(),
            orig.len() == n,
            components@.len() == i,
            previous@ == (if i <= start.len() {
                start.skip(i as int)
            } else {
                Seq::<C>::empty()
            }),
            forall|j: int| 0 <= j < i ==> (#[trigger] components@[j]).params() == orig[j],
            forall|j: int| 0 <= j < i && j < start.len() ==> #[trigger] components@[j] == start[j].told(orig[j]),
            forall|j: int| start.len() <= j < i ==> #[trigger] components@[j] == C::built(orig[j]),
        decreases data@.len(),
    {
        let x = data.remove(0);
        assert(x == orig[i as int]);
        if previous.len() > 0 {
            let mut c = previous.remove(0);
            assert(c == start[i as int]);
            c.changed(x);
            components.push(c);
            assert(previous@ =~= start.skip(i + 1));
        } else {
            assert(i >= start.len());
            components.push(C::new(x));
        }
        i = i + 1;
        assert(data@ =~= orig.skip(i as int));
    }
}

/// Brings an optional component in line with optional data: kept and told of the new parameters
/// when both are there, built when only the data is, dropped when the data is not.
pub fn init_option<C: Component<T>, T>(component: &mut Option<C>, data: Option<T>)
    ensures
        match data {
            Some(x) => *final(component) matches Some(c) && c.params() == x && c == match *old(component) {
                Some(o) => o.told(x),
                None => C::built(x),
            },
            None => *final(component) is None,
        },
{
    match data {
        Some(x) => {
            let mut previous: Option<C> = None;
            std::mem::swap(component, &mut previous);
            match previous {
                Some(mut c) => {
                    c.changed(x);
                    *component = Some(c);
                },
                None => {
                    *component = Some(C::new(x));
                },
            }
        },
        None => {
            *component = None;
        },
    }
}

/// What a watch button records about the air date.
#[derive(Clone, Copy, PartialEq, Eq, Structural, Debug)]
pub enum RemainingSeason {
    /// Watched right now.
    Aired,
    /// Watched at the air date.
    AirDate,
}

} // verus!
