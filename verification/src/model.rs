use vstd::prelude::*;

verus! {

/// One stage of a network. `T` is the type of the batches it maps: `forward` maps
/// a batch of inputs to a batch of outputs, `backward` maps the gradient of the
/// loss with respect to its outputs to the gradient with respect to its inputs.
/// Implementations (dense layers, activations) supply their own arithmetic, and
/// describe it by `forward_result` and `backward_result`. What `Sequential`
/// proves of a network holds of layers whose `forward` and `backward` keep these
/// clauses; an implementation that is not verified is not checked against them.
pub trait Layer<T>: Sized {
    /// The batch that `forward` on `input` returns, and the layer's state after it.
    spec fn forward_result(&self, input: T) -> (T, Self);

    /// The gradient that `backward` on `output_gradient` returns, and the layer's
    /// state after it.
    spec fn backward_result(&self, output_gradient: T) -> (T, Self);

    fn forward(&mut self, input: T) -> (output: T)
        ensures
            (output, *final(self)) == old(self).forward_result(input),
    ;

    fn backward(&mut self, output_gradient: T) -> (input_gradient: T)
        ensures
            (input_gradient, *final(self)) == old(self).backward_result(output_gradient),
    ;
}

/// The layers and the batch after layers `i`, `i + 1`, ... have run `forward`,
/// each on what the previous one returned, starting from `x`.
pub open spec fn forward_from<T, L: Layer<T>>(layers: Seq<L>, i: int, x: T) -> (Seq<L>, T)
    decreases layers.len() - i,
{
    if i < 0 || i >= layers.len() {
        (layers, x)
    } else {
        let (y, layer) = layers[i].forward_result(x);
        forward_from(layers.update(i, layer), i + 1, y)
    }
}

/// The layers and the gradient after layers `i - 1`, `i - 2`, ..., `0` have run
/// `backward`, each on what the layer after it returned, starting from `g`.
pub open spec fn backward_from<T, L: Layer<T>>(layers: Seq<L>, i: int, g: T) -> (Seq<L>, T)
    decreases i,
{
    if i <= 0 || i > layers.len() {
        (layers, g)
    } else {
        let (h, layer) = layers[i - 1].backward_result(g);
        backward_from(layers.update(i - 1, layer), i - 1, h)
    }
}

proof fn lemma_forward_from_push<T, L: Layer<T>>(ls: Seq<L>, l: L, i: int, x: T)
    requires
        0 <= i <= ls.len(),
    ensures
        forward_from(ls.push(l), i, x) == ({
            let (after, y) = forward_from(ls, i, x);
            let (z, l_after) = l.forward_result(y);
            (after.push(l_after), z)
        }),
    decreases ls.len() - i,
{
    if i == ls.len() {
        let (z, l_after) = l.forward_result(x);
        assert(ls.push(l).update(i, l_after) =~= ls.push(l_after));
        assert(forward_from(ls.push(l_after), i + 1, z) == (ls.push(l_after), z));
    } else {
        let (y, layer) = ls[i].forward_result(x);
        assert(ls.push(l)[i] == ls[i]);
        assert(ls.push(l).update(i, layer) =~= ls.update(i, layer).push(l));
        lemma_forward_from_push(ls.update(i, layer), l, i + 1, y);
    }
}

/// Running a network forward: a network without layers returns its input, and
/// a network with one more layer `l` at the end returns what `l`'s `forward`
/// gives on the output of the shorter network, leaving the shorter network's
/// layers as that run leaves them and `l` as its own `forward` leaves it. So every
/// layer, whatever their number, runs exactly once, first to last.
pub proof fn lemma_forward_runs_every_layer<T, L: Layer<T>>(ls: Seq<L>, l: L, x: T)
    ensures
        forward_from(Seq::<L>::empty(), 0, x) == (Seq::<L>::empty(), x),
        forward_from(ls.push(l), 0, x).1 == l.forward_result(forward_from(ls, 0, x).1).0,
        forward_from(ls.push(l), 0, x).0 == forward_from(ls, 0, x).0.push(
            l.forward_result(forward_from(ls, 0, x).1).1,
        ),
{
    lemma_forward_from_push(ls, l, 0, x);
}

proof fn lemma_backward_from_push<T, L: Layer<T>>(ls: Seq<L>, m: L, i: int, g: T)
    requires
        0 <= i <= ls.len(),
    ensures
        backward_from(ls.push(m), i, g) == ({
            let (after, h) = backward_from(ls, i, g);
            (after.push(m), h)
        }),
    decreases i,
{
    if i > 0 {
        let (h, layer) = ls[i - 1].backward_result(g);
        assert(ls.push(m)[i - 1] == ls[i - 1]);
        assert(ls.push(m).update(i - 1, layer) =~= ls.update(i - 1, layer).push(m));
        lemma_backward_from_push(ls.update(i - 1, layer), m, i - 1, h);
    }
}

/// Running a network backward: a network without layers returns the gradient it
/// is given, and a network with one more layer `l` at the end first runs `l`'s
/// `backward` on the gradient, then the shorter network backward on what `l`
/// returned. So every layer, whatever their number, runs backward exactly once,
/// last to first.
pub proof fn lemma_backward_runs_every_layer<T, L: Layer<T>>(ls: Seq<L>, l: L, g: T)
    ensures
        backward_from(Seq::<L>::empty(), 0, g) == (Seq::<L>::empty(), g),
        backward_from(ls.push(l), (ls.len() + 1) as int, g).1 == backward_from(
            ls,
            ls.len() as int,
            l.backward_result(g).0,
        ).1,
        backward_from(ls.push(l), (ls.len() + 1) as int, g).0 == backward_from(
            ls,
            ls.len() as int,
            l.backward_result(g).0,
        ).0.push(l.backward_result(g).1),
{
    let (h, l_after) = l.backward_result(g);
    let n = ls.len() as int;
    assert(ls.push(l)[n] == l);
    assert(ls.push(l).update(n, l_after) =~= ls.push(l_after));
    lemma_backward_from_push(ls, l_after, n, h);
}

/// A network whose layers are applied one after another, in the order they were added.
pub struct Sequential<L> {
    layers: Vec<L>,
}

impl<L> Sequential<L> {
    /// The layers, first to last.
    pub closed spec fn layers(&self) -> Seq<L> {
        self.layers@
    }

    /// A network without layers.
    pub fn new() -> (model: Self)
        ensures
            model.layers() == Seq::<L>::empty(),
    {
        Sequential { layers: Vec::new() }
    }

    /// Appends `layer` after the existing layers.
    pub fn add(&mut self, layer: L)
        ensures
            final(self).layers() == old(self).layers().push(layer),
    {
        self.layers.push(layer);
    }

    /// The number of layers.
    pub fn layer_count(&self) -> (count: usize)
        ensures
            count == self.layers().len(),
    {
        self.layers.len()
    }

    /// The layers, for an optimizer to update their parameters in place.
    pub fn layers_mut(&mut self) -> (layers: &mut Vec<L>)
        ensures
            layers@ == old(self).layers(),
            final(self).layers() == final(layers)@,
    {
        &mut self.layers
    }

    /// Passes `input` through every layer, first to last: each layer's `forward`
    /// receives what the previous one returned, and the last one's result is returned.
    pub fn forward<T>(&mut self, input: T) -> (output: T) where L: Layer<T>
        ensures
            (final(self).layers(), output) == forward_from(old(self).layers(), 0, input),
            final(self).layers().len() == old(self).layers().len(),
            old(self).layers().len() == 0 ==> output == input,
    {
        let mut current = input;
        let n = self.layers.len();
        let mut i: usize = 0;
        while i < n
            invariant
                i <= n,
                n == self.layers@.len(),
                i == 0 ==> current == input,
                forward_from(self.layers@, i as int, current) == forward_from(
                    old(self).layers@,
                    0,
                    input,
                ),
            decreases n - i,
        {
            current = self.layers[i].forward(current);
            i = i + 1;
        }
        current
    }

    /// Runs `forward` on a copy of `input`.
    pub fn predict<T: Clone>(&mut self, input: &T) -> (output: T) where L: Layer<T>
        ensures
            exists|copy: T|
                cloned(*input, copy) && (final(self).layers(), output) == forward_from(
                    old(self).layers(),
                    0,
                    copy,
                ),
            final(self).layers().len() == old(self).layers().len(),
    {
        let copy = input.clone();
        let ghost copied = copy;
        assert(cloned(*input, copied));
        self.forward(copy)
    }

    /// Passes the gradient of the loss back through every layer, last to first:
    /// each layer's `backward` receives what the layer after it returned.
    pub fn backward<T>(&mut self, output_gradient: T) -> (input_gradient: T) where L: Layer<T>
        ensures
            (final(self).layers(), input_gradient) == backward_from(
                old(self).layers(),
                old(self).layers().len() as int,
                output_gradient,
            ),
            final(self).layers().len() == old(self).layers().len(),
            old(self).layers().len() == 0 ==> input_gradient == output_gradient,
    {
        let mut current = output_gradient;
        let mut i: usize = self.layers.len();
        while i > 0
            invariant
                i <= self.layers@.len(),
                self.layers@.len() == old(self).layers@.len(),
                i == self.layers@.len() ==> current == output_gradient,
                backward_from(self.layers@, i as int, current) == backward_from(
                    old(self).layers@,
                    old(self).layers@.len() as int,
                    output_gradient,
                ),
            decreases i,
        {
            i = i - 1;
            current = self.layers[i].backward(current);
        }
        current
    }
}

impl<L> Default for Sequential<L> {
    fn default() -> (model: Self)
        ensures
            model.layers() == Seq::<L>::empty(),
    {
        Self::new()
    }
}

} // verus!
