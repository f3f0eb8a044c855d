//! Layers and models: an affine transform followed by an activation, and a
//! pipeline of such stages that an input is folded through.
use crate::error::{Error, Shape};
use crate::grid::{lemma_offset, Grid};
use crate::matrix::{cloned_grid, Matrix};
use crate::scalar::Scalar;
use vstd::prelude::*;

pub mod activate_functions;

verus! {

/// One stage of a network: `weights . input + bias`, then the activation.
///
/// The weights are `input_len` wide and `output_len` high, the bias is one
/// wide and `output_len` high. `activate` is any function from matrices to
/// matrices; `activate_diff` is its derivative, kept for training.
#[derive(Debug)]
#[verifier::reject_recursive_types(T)]
pub struct Layer<T, F: Fn(Matrix<T>) -> Matrix<T>, G> {
    weights: Matrix<T>,
    bias: Matrix<T>,
    activate: F,
    activate_diff: G,
}

/// What a layer hands back when its activation turned a matrix of shape
/// `expected` into `produced`: the matrix itself, unless its shape changed.
pub open spec fn activation_outcome<T>(expected: Shape, produced: Matrix<T>) -> Result<
    Matrix<T>,
    Error,
> {
    if produced.spec_shape() == expected {
        Ok(produced)
    } else {
        Err(Error::ActivationShapeViolation)
    }
}

/// Guards against an activation that does not keep the shape of its
/// argument: `produced` passes only with the shape `expected`.
pub fn check_activation<T>(expected: Shape, produced: Matrix<T>) -> (outcome: Result<
    Matrix<T>,
    Error,
>)
    ensures
        outcome == activation_outcome(expected, produced),
{
    let actual = produced.shape();
    if actual.width == expected.width && actual.height == expected.height {
        Ok(produced)
    } else {
        Err(Error::ActivationShapeViolation)
    }
}

impl<T, F: Fn(Matrix<T>) -> Matrix<T>, G> Layer<T, F, G> {
    /// Weights and bias have one row for each output, and the activation
    /// can be called on every matrix.
    #[verifier::type_invariant]
    closed spec fn wf(&self) -> bool {
        &&& self.weights@.height == self.bias@.height
        &&& self.bias@.width == 1
        &&& forall|u: Matrix<T>| #[trigger] call_requires(self.activate, (u,))
    }

    /// The weight matrix.
    pub closed spec fn weights(&self) -> Grid<T> {
        self.weights@
    }

    /// The bias column.
    pub closed spec fn bias(&self) -> Grid<T> {
        self.bias@
    }

    /// The activation function.
    pub closed spec fn activation(&self) -> F {
        self.activate
    }

    /// The derivative of the activation function.
    pub closed spec fn activation_diff(&self) -> G {
        self.activate_diff
    }

    /// The number of inputs: the width of the weights.
    pub open spec fn spec_input_len(&self) -> nat {
        self.weights().width
    }

    /// The number of outputs: the height of the bias.
    pub open spec fn spec_output_len(&self) -> nat {
        self.bias().height
    }

    /// What holds of the shapes of every layer: the weights have one row
    /// for each output, and the bias is a column of one element for each
    /// output.
    pub open spec fn well_shaped(&self) -> bool {
        &&& self.weights().wf()
        &&& self.bias().wf()
        &&& self.weights().height == self.spec_output_len()
        &&& self.bias().width == 1
    }

    /// Whether `input` is a column of `input_len` elements.
    pub open spec fn accepts(&self, input: Grid<T>) -> bool {
        input.width == 1 && input.height == self.spec_input_len()
    }

    /// The shape of the weights.
    pub open spec fn weights_shape(&self) -> Shape {
        Shape {
            width: self.weights().width as usize,
            height: self.weights().height as usize,
        }
    }

    /// The shape that this layer asks of its input.
    pub open spec fn input_shape(&self) -> Shape {
        Shape { width: 1, height: self.spec_input_len() as usize }
    }

    /// The shape of what this layer computes.
    pub open spec fn output_shape(&self) -> Shape {
        Shape { width: 1, height: self.spec_output_len() as usize }
    }

    /// The lengths of a layer are machine integers, so its shapes hold them
    /// as they are.
    pub proof fn lemma_shapes(&self)
        ensures
            self.input_shape().height == self.spec_input_len(),
            self.output_shape().height == self.spec_output_len(),
    {
        self.weights.lemma_shape();
        self.bias.lemma_shape();
    }

    /// The number of inputs.
    pub fn input_len(&self) -> (len: usize)
        ensures
            len == self.spec_input_len(),
            self.well_shaped(),
    {
        proof {
            use_type_invariant(self);
            use_type_invariant(&self.weights);
            use_type_invariant(&self.bias);
            self.weights.lemma_view_wf();
            self.bias.lemma_view_wf();
        }
        self.weights.width()
    }

    /// The number of outputs.
    pub fn output_len(&self) -> (len: usize)
        ensures
            len == self.spec_output_len(),
            self.well_shaped(),
    {
        proof {
            use_type_invariant(self);
            use_type_invariant(&self.weights);
            use_type_invariant(&self.bias);
            self.weights.lemma_view_wf();
            self.bias.lemma_view_wf();
        }
        self.bias.height()
    }

    /// Replaces the weights by `value`, which must have their shape;
    /// otherwise nothing changes.
    pub fn set_weight(&mut self, value: Matrix<T>) -> (outcome: Result<(), Error>)
        ensures
            final(self).bias() == old(self).bias(),
            final(self).activation() == old(self).activation(),
            final(self).activation_diff() == old(self).activation_diff(),
            match outcome {
                Ok(()) => value@.same_shape(old(self).weights())
                    && final(self).weights() == value@,
                Err(e) => !value@.same_shape(old(self).weights())
                    && final(self).weights() == old(self).weights()
                    && e == (Error::ShapeMismatch {
                        expected: old(self).weights_shape(),
                        actual: value.spec_shape(),
                    }),
            },
    {
        proof {
            use_type_invariant(&*self);
        }
        let expected = self.weights.shape();
        let actual = value.shape();
        if expected.width == actual.width && expected.height == actual.height {
            self.weights = value;
            Ok(())
        } else {
            Err(Error::ShapeMismatch { expected, actual })
        }
    }

    /// Replaces the bias by `value`, which must be one wide and `output_len`
    /// high; otherwise nothing changes.
    pub fn set_bias(&mut self, value: Matrix<T>) -> (outcome: Result<(), Error>)
        ensures
            final(self).weights() == old(self).weights(),
            final(self).activation() == old(self).activation(),
            final(self).activation_diff() == old(self).activation_diff(),
            match outcome {
                Ok(()) => value@.same_shape(old(self).bias()) && final(self).bias() == value@,
                Err(e) => !value@.same_shape(old(self).bias())
                    && final(self).bias() == old(self).bias()
                    && e == (Error::ShapeMismatch {
                        expected: old(self).output_shape(),
                        actual: value.spec_shape(),
                    }),
            },
    {
        proof {
            use_type_invariant(&*self);
        }
        let expected = Shape { width: 1, height: self.bias.height() };
        let actual = value.shape();
        if expected.width == actual.width && expected.height == actual.height {
            self.bias = value;
            Ok(())
        } else {
            Err(Error::ShapeMismatch { expected, actual })
        }
    }
}

impl<T: Copy, F: Fn(Matrix<T>) -> Matrix<T>, G> Layer<T, F, G> {
    /// Sets every weight to a value drawn from `f`, one call for each, row
    /// by row.
    pub fn parm_set<P: Fn() -> T>(&mut self, f: P)
        requires
            call_requires(f, ()),
        ensures
            final(self).bias() == old(self).bias(),
            final(self).activation() == old(self).activation(),
            final(self).activation_diff() == old(self).activation_diff(),
            final(self).weights().wf(),
            final(self).weights().same_shape(old(self).weights()),
            forall|x: int, y: int|
                old(self).weights().has(x, y) ==> call_ensures(
                    f,
                    (),
                    #[trigger] final(self).weights().at(x, y),
                ),
    {
        proof {
            use_type_invariant(&*self);
        }
        let shape = self.weights.shape();
        let width: usize = shape.width;
        let height: usize = shape.height;
        let mut y: usize = 0;
        while y < height
            invariant
                y <= height,
                self.weights@.wf(),
                self.weights@.width == width,
                self.weights@.height == height,
                self.bias@.height == height,
                self.bias@.width == 1,
                self.bias == old(self).bias,
                self.activate == old(self).activate,
                self.activate_diff == old(self).activate_diff,
                forall|u: Matrix<T>| #[trigger] call_requires(self.activate, (u,)),
                call_requires(f, ()),
                forall|i: int, j: int|
                    0 <= i < width && 0 <= j < y ==> call_ensures(
                        f,
                        (),
                        #[trigger] self.weights@.at(i, j),
                    ),
            decreases height - y,
        {
            let mut x: usize = 0;
            while x < width
                invariant
                    x <= width,
                    y < height,
                    self.weights@.wf(),
                    self.weights@.width == width,
                    self.weights@.height == height,
                    self.bias@.height == height,
                    self.bias@.width == 1,
                    self.bias == old(self).bias,
                    self.activate == old(self).activate,
                    self.activate_diff == old(self).activate_diff,
                    forall|u: Matrix<T>| #[trigger] call_requires(self.activate, (u,)),
                    call_requires(f, ()),
                    forall|i: int, j: int|
                        0 <= i < width && (0 <= j < y || (j == y && i < x)) ==> call_ensures(
                            f,
                            (),
                            #[trigger] self.weights@.at(i, j),
                        ),
                decreases width - x,
            {
                let value = f();
                let ghost prior = self.weights@;
                self.weights.set(x, y, value);
                proof {
                    lemma_offset(width as nat, height as nat, x as int, y as int);
                    assert forall|i: int, j: int|
                        0 <= i < width && 0 <= j < height && (i != x || j != y) implies
                        #[trigger] self.weights@.at(i, j) == prior.at(i, j) by {
                        lemma_offset(width as nat, height as nat, i, j);
                    }
                }
                x += 1;
            }
            y += 1;
        }
    }
}

impl<T: Scalar, F: Fn(Matrix<T>) -> Matrix<T>, G> Layer<T, F, G> {
    /// A layer of `input_len` inputs and `output_len` outputs with all
    /// weights and the bias at zero.
    pub fn new(input_len: usize, output_len: usize, activate: F, activate_diff: G) -> (layer: Self)
        requires
            input_len * output_len <= usize::MAX,
            forall|u: Matrix<T>| #[trigger] call_requires(activate, (u,)),
        ensures
            layer.weights() == Grid::<T>::zeros(input_len as nat, output_len as nat),
            layer.bias() == Grid::<T>::zeros(1, output_len as nat),
            layer.activation() == activate,
            layer.activation_diff() == activate_diff,
    {
        Layer {
            weights: Matrix::new(input_len, output_len),
            bias: Matrix::new(1, output_len),
            activate,
            activate_diff,
        }
    }

    /// What the layer computes of `input` before the activation:
    /// `weights . input + bias`.
    pub open spec fn pre_activation(&self, input: Grid<T>) -> Grid<T> {
        self.weights().dot(input).add(self.bias())
    }

    /// Whether the activation hands back a matrix of the shape it was given,
    /// whatever it is given.
    pub open spec fn activation_keeps_shape(&self) -> bool {
        forall|u: Matrix<T>, v: Matrix<T>| #[trigger]
            call_ensures(self.activation(), (u,), v) ==> v@.same_shape(u@)
    }

    /// Whether `outcome` is what this layer may hand back for `input`: a
    /// shape mismatch where the input is no column of `input_len` elements,
    /// and else what the activation made of `weights . input + bias`, checked
    /// for its shape.
    pub open spec fn yields(&self, input: Grid<T>, outcome: Result<Matrix<T>, Error>) -> bool {
        if self.accepts(input) {
            exists|u: Matrix<T>, v: Matrix<T>|
                u@ == self.pre_activation(input) && #[trigger] call_ensures(
                    self.activation(),
                    (u,),
                    v,
                ) && outcome == activation_outcome(self.output_shape(), v)
        } else {
            outcome == Err::<Matrix<T>, Error>(
                Error::ShapeMismatch {
                    expected: self.input_shape(),
                    actual: Shape { width: input.width as usize, height: input.height as usize },
                },
            )
        }
    }

    /// The affine stage: `weights . input + bias` for a column `input` of
    /// `input_len` elements.
    pub fn pre_activate(&self, input: &Matrix<T>) -> (outcome: Result<Matrix<T>, Error>)
        ensures
            self.accepts(input@) ==> outcome is Ok && outcome->Ok_0@ == self.pre_activation(
                input@,
            ) && outcome->Ok_0.spec_shape() == self.output_shape(),
            !self.accepts(input@) ==> outcome == Err::<Matrix<T>, Error>(
                Error::ShapeMismatch { expected: self.input_shape(), actual: input.spec_shape() },
            ),
    {
        proof {
            use_type_invariant(self);
        }
        let actual = input.shape();
        let weights_shape = self.weights.shape();
        if actual.width != 1 || actual.height != weights_shape.width {
            return Err(
                Error::ShapeMismatch {
                    expected: Shape { width: 1, height: weights_shape.width },
                    actual,
                },
            );
        }
        proof {
            self.weights@.lemma_dot_cells(input@);
        }
        let product = match self.weights.dot(input) {
            Ok(product) => product,
            Err(e) => {
                return Err(e);
            },
        };
        product.add(&self.bias)
    }

    /// The output of this layer for `input`, a column of `input_len`
    /// elements: the activation applied to `weights . input + bias`. What
    /// the activation hands back must have the shape of what it was given.
    pub fn output(&self, input: &Matrix<T>) -> (outcome: Result<Matrix<T>, Error>)
        ensures
            self.yields(input@, outcome),
            outcome is Ok ==> self.accepts(input@) && outcome->Ok_0@.wf() && outcome->Ok_0@.width
                == 1 && outcome->Ok_0@.height == self.spec_output_len(),
            self.accepts(input@) && self.activation_keeps_shape() ==> outcome is Ok,
    {
        let u = match self.pre_activate(input) {
            Ok(u) => u,
            Err(e) => {
                return Err(e);
            },
        };
        let expected = u.shape();
        let ghost before = u;
        proof {
            use_type_invariant(self);
        }
        let v = (self.activate)(u);
        proof {
            assert(call_ensures(self.activation(), (before,), v));
            self.lemma_shapes();
            v.lemma_shape();
            use_type_invariant(&v);
            v.lemma_view_wf();
        }
        check_activation(expected, v)
    }
}

/// Whether `copy` holds clones of the weights, of the bias and of the
/// derivative of `source`, and the same activation.
pub open spec fn cloned_layer<T: Clone, F: Copy + Fn(Matrix<T>) -> Matrix<T>, G: Clone>(
    source: Layer<T, F, G>,
    copy: Layer<T, F, G>,
) -> bool {
    &&& cloned_grid(source.weights(), copy.weights())
    &&& cloned_grid(source.bias(), copy.bias())
    &&& copy.activation() == source.activation()
    &&& cloned::<G>(source.activation_diff(), copy.activation_diff())
}

impl<T: Clone, F: Copy + Fn(Matrix<T>) -> Matrix<T>, G: Clone> Clone for Layer<T, F, G> {
    /// A layer with the same activation and clones of the weights, the bias
    /// and the derivative.
    fn clone(&self) -> (copy: Self)
        ensures
            cloned_layer(*self, copy),
    {
        proof {
            use_type_invariant(self);
        }
        Layer {
            weights: self.weights.clone(),
            bias: self.bias.clone(),
            activate: self.activate,
            activate_diff: self.activate_diff.clone(),
        }
    }
}

/// An ordered pipeline of layers, each of which takes as many inputs as the
/// one before it has outputs.
#[derive(Debug)]
#[verifier::reject_recursive_types(T)]
pub struct Model<T, F: Fn(Matrix<T>) -> Matrix<T>, G> {
    vec: Vec<Layer<T, F, G>>,
}

/// Whether each of `layers` takes as many inputs as the one before it has
/// outputs.
pub open spec fn chained<T, F: Fn(Matrix<T>) -> Matrix<T>, G>(layers: Seq<Layer<T, F, G>>) -> bool {
    forall|i: int|
        0 < i < layers.len() ==> (#[trigger] layers[i]).spec_input_len() == layers[i
            - 1].spec_output_len()
}

/// Whether `outcome` is what `layer` may make of what came `before` it: what
/// it yields for a matrix, and an error as it is.
pub open spec fn passes_on<T: Scalar, F: Fn(Matrix<T>) -> Matrix<T>, G>(
    layer: Layer<T, F, G>,
    before: Result<Matrix<T>, Error>,
    outcome: Result<Matrix<T>, Error>,
) -> bool {
    match before {
        Ok(matrix) => layer.yields(matrix@, outcome),
        Err(e) => outcome == Err::<Matrix<T>, Error>(e),
    }
}

/// Whether `outcome` is what folding `input` through `layers`, first to last,
/// may give: `input` itself where there is no layer; else what the last layer
/// yields for the outcome of the layers before it, or the first error on the
/// way.
pub open spec fn folds<T: Scalar, F: Fn(Matrix<T>) -> Matrix<T>, G>(
    layers: Seq<Layer<T, F, G>>,
    input: Matrix<T>,
    outcome: Result<Matrix<T>, Error>,
) -> bool
    decreases layers.len(),
{
    if layers.len() == 0 {
        outcome == Ok::<Matrix<T>, Error>(input)
    } else {
        exists|before: Result<Matrix<T>, Error>|
            folds(layers.drop_last(), input, before) && #[trigger] passes_on(
                layers.last(),
                before,
                outcome,
            )
    }
}

/// An error on the way is the outcome of the whole pipeline.
pub proof fn lemma_error_stops<T: Scalar, F: Fn(Matrix<T>) -> Matrix<T>, G>(
    layers: Seq<Layer<T, F, G>>,
    done: int,
    input: Matrix<T>,
    e: Error,
)
    requires
        0 <= done <= layers.len(),
        folds(layers.take(done), input, Err(e)),
    ensures
        folds(layers, input, Err(e)),
    decreases layers.len() - done,
{
    if done == layers.len() {
        assert(layers.take(done) =~= layers);
    } else {
        let longer = layers.take(done + 1);
        assert(longer.drop_last() =~= layers.take(done));
        assert(folds(longer.drop_last(), input, Err::<Matrix<T>, Error>(e)));
        assert(passes_on(longer.last(), Err::<Matrix<T>, Error>(e), Err::<Matrix<T>, Error>(e)));
        assert(folds(longer, input, Err(e)));
        lemma_error_stops(layers, done + 1, input, e);
    }
}

impl<T, F: Fn(Matrix<T>) -> Matrix<T>, G> Model<T, F, G> {
    /// Adjacent layers fit.
    #[verifier::type_invariant]
    closed spec fn wf(&self) -> bool {
        chained(self.vec@)
    }

    /// The layers, first to last.
    pub closed spec fn layers(&self) -> Seq<Layer<T, F, G>> {
        self.vec@
    }

    /// A model without layers.
    pub fn new() -> (model: Self)
        ensures
            model.layers() == Seq::<Layer<T, F, G>>::empty(),
    {
        Model { vec: Vec::new() }
    }

    /// The number of layers.
    pub fn len(&self) -> (len: usize)
        ensures
            len == self.layers().len(),
            chained(self.layers()),
    {
        proof {
            use_type_invariant(self);
        }
        self.vec.len()
    }

    /// Whether `layer` may follow the layers of this model: always where
    /// there is none yet, and else where it takes as many inputs as the last
    /// layer has outputs.
    pub open spec fn fits(&self, layer: Layer<T, F, G>) -> bool {
        self.layers().len() == 0 || self.layers().last().spec_output_len()
            == layer.spec_input_len()
    }

    /// Appends `layer`. The first layer is always taken; every other must
    /// take as many inputs as the last layer has outputs, or nothing
    /// changes.
    pub fn push(&mut self, layer: Layer<T, F, G>) -> (outcome: Result<(), Error>)
        ensures
            chained(final(self).layers()),
            match outcome {
                Ok(()) => old(self).fits(layer)
                    && final(self).layers() == old(self).layers().push(layer),
                Err(e) => !old(self).fits(layer)
                    && final(self).layers() == old(self).layers()
                    && e == (Error::ShapeMismatch {
                        expected: old(self).layers().last().output_shape(),
                        actual: layer.input_shape(),
                    }),
            },
    {
        proof {
            use_type_invariant(&*self);
        }
        let count: usize = self.vec.len();
        if count > 0 {
            let expected: usize = self.vec[count - 1].output_len();
            let actual: usize = layer.input_len();
            if expected != actual {
                return Err(
                    Error::ShapeMismatch {
                        expected: Shape { width: 1, height: expected },
                        actual: Shape { width: 1, height: actual },
                    },
                );
            }
        }
        let mut layers: Vec<Layer<T, F, G>> = Vec::new();
        core::mem::swap(&mut layers, &mut self.vec);
        layers.push(layer);
        self.vec = layers;
        Ok(())
    }
}

impl<T: Scalar, F: Fn(Matrix<T>) -> Matrix<T>, G> Model<T, F, G> {
    /// Whether every activation of this model keeps the shape of what it is
    /// given.
    pub open spec fn activations_keep_shape(&self) -> bool {
        forall|i: int|
            0 <= i < self.layers().len() ==> (#[trigger] self.layers()[i]).activation_keeps_shape()
    }

    /// Folds `input` through the layers, first to last: each layer gets what
    /// the one before it handed back. A model without layers hands `input`
    /// back. The first layer that refuses its input, or whose activation
    /// changes the shape, ends the run with its error.
    pub fn run(&self, input: Matrix<T>) -> (outcome: Result<Matrix<T>, Error>)
        ensures
            folds(self.layers(), input, outcome),
            outcome is Ok && self.layers().len() > 0 ==> outcome->Ok_0@.width == 1
                && outcome->Ok_0@.height == self.layers().last().spec_output_len(),
            self.layers().len() > 0 && self.layers()[0].accepts(input@)
                && self.activations_keep_shape() ==> outcome is Ok,
    {
        proof {
            use_type_invariant(self);
        }
        let count: usize = self.vec.len();
        let ghost first = input;
        let mut matrix = input;
        let mut i: usize = 0;
        while i < count
            invariant
                i <= count,
                count == self.vec@.len(),
                chained(self.vec@),
                folds(self.vec@.take(i as int), first, Ok(matrix)),
                i > 0 ==> matrix@.width == 1 && matrix@.height == self.vec@[i
                    - 1].spec_output_len(),
                i == 0 ==> matrix == first,
                first == input,
            decreases count - i,
        {
            let layer = &self.vec[i];
            let ghost given = matrix;
            let step = layer.output(&matrix);
            proof {
                let longer = self.vec@.take(i + 1);
                assert(longer.drop_last() =~= self.vec@.take(i as int));
                assert(longer.last() == self.vec@[i as int]);
                assert(folds(longer.drop_last(), first, Ok::<Matrix<T>, Error>(given)));
                assert(passes_on(longer.last(), Ok::<Matrix<T>, Error>(given), step));
                assert(folds(longer, first, step));
                if i > 0 {
                    assert(self.vec@[i as int].spec_input_len() == self.vec@[i
                        - 1].spec_output_len());
                    assert(self.vec@[i as int].accepts(matrix@));
                }
                if self.activations_keep_shape() {
                    assert(self.layers()[i as int].activation_keeps_shape());
                }
                if let Err(e) = step {
                    lemma_error_stops(self.vec@, i + 1, first, e);
                }
            }
            match step {
                Ok(next) => {
                    matrix = next;
                },
                Err(e) => {
                    return Err(e);
                },
            }
            i += 1;
        }
        proof {
            assert(self.vec@.take(count as int) =~= self.vec@);
        }
        Ok(matrix)
    }
}

impl<T: Clone, F: Copy + Fn(Matrix<T>) -> Matrix<T>, G: Clone> Clone for Model<T, F, G> {
    /// A model with a clone of each layer, in the same order.
    fn clone(&self) -> (copy: Self)
        ensures
            copy.layers().len() == self.layers().len(),
            forall|i: int|
                0 <= i < self.layers().len() ==> cloned_layer(
                    #[trigger] self.layers()[i],
                    copy.layers()[i],
                ),
    {
        proof {
            use_type_invariant(self);
        }
        let count: usize = self.vec.len();
        let mut layers: Vec<Layer<T, F, G>> = Vec::new();
        let mut i: usize = 0;
        while i < count
            invariant
                i <= count,
                count == self.vec@.len(),
                layers@.len() == i,
                chained(self.vec@),
                forall|j: int| 0 <= j < i ==> cloned_layer(#[trigger] self.vec@[j], layers@[j]),
            decreases count - i,
        {
            let layer = self.vec[i].clone();
            layers.push(layer);
            i += 1;
        }
        proof {
            assert forall|j: int| 0 < j < layers@.len() implies
                (#[trigger] layers@[j]).spec_input_len() == layers@[j - 1].spec_output_len() by {
                assert(cloned_layer(self.vec@[j], layers@[j]));
                assert(cloned_layer(self.vec@[j - 1], layers@[j - 1]));
            }
        }
        Model { vec: layers }
    }
}

} // verus!
