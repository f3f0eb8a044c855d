use neural_rust::error::{Error, Shape};
use neural_rust::matrix::Matrix;
use neural_rust::neuron::activate_functions::{relu, relu_diff};
use neural_rust::neuron::{check_activation, Layer, Model};

type Activation = fn(Matrix<i64>) -> Matrix<i64>;

fn column(values: &[i64]) -> Matrix<i64> {
    let mut m = Matrix::new(1, values.len());
    for (y, v) in values.iter().enumerate() {
        m.set(0, y, *v);
    }
    m
}

fn from_rows(rows: &[&[i64]]) -> Matrix<i64> {
    let height = rows.len();
    let width = if height == 0 { 0 } else { rows[0].len() };
    let mut m = Matrix::new(width, height);
    for (y, row) in rows.iter().enumerate() {
        for (x, v) in row.iter().enumerate() {
            m.set(x, y, *v);
        }
    }
    m
}

fn identity(m: Matrix<i64>) -> Matrix<i64> {
    m
}

fn ones(mut m: Matrix<i64>) -> Matrix<i64> {
    m.map(|_, _| 1);
    m
}

fn widen(m: Matrix<i64>) -> Matrix<i64> {
    Matrix::new(m.width() + 1, m.height())
}

fn layer(
    weights: &[&[i64]],
    bias: &[i64],
    activate: Activation,
    activate_diff: Activation,
) -> Layer<i64, Activation, Activation> {
    let mut layer = Layer::new(weights[0].len(), weights.len(), activate, activate_diff);
    assert_eq!(layer.set_weight(from_rows(weights)), Ok(()));
    assert_eq!(layer.set_bias(column(bias)), Ok(()));
    layer
}

#[test]
fn relu_clears_negative_values() {
    let m = from_rows(&[&[-3, 0, 4], &[i64::MIN, i64::MAX, -1]]);
    assert_eq!(relu(m), from_rows(&[&[0, 0, 4], &[0, i64::MAX, 0]]));
}

#[test]
fn relu_diff_is_the_step() {
    let m = from_rows(&[&[-3, 0, 4], &[i64::MIN, i64::MAX, -1]]);
    assert_eq!(relu_diff(m), from_rows(&[&[0, 1, 1], &[0, 1, 0]]));
}

#[test]
fn new_layer_is_zero() {
    let l: Layer<i64, Activation, Activation> = Layer::new(3, 2, identity, ones);
    assert_eq!(l.input_len(), 3);
    assert_eq!(l.output_len(), 2);
    assert_eq!(l.output(&column(&[5, 6, 7])), Ok(column(&[0, 0])));
}

#[test]
fn single_layer_with_identity() {
    let mut model = Model::new();
    assert_eq!(model.push(layer(&[&[1, 2]], &[3], identity, ones)), Ok(()));
    assert_eq!(model.len(), 1);
    assert_eq!(model.run(column(&[4, 5])), Ok(column(&[17])));
}

#[test]
fn relu_layer_clears_a_negative_sum() {
    let mut model = Model::new();
    assert_eq!(model.push(layer(&[&[-1, -1]], &[0], relu, relu_diff)), Ok(()));
    assert_eq!(model.run(column(&[1, 1])), Ok(column(&[0])));
}

#[test]
fn relu_layer_keeps_a_positive_sum() {
    let l = layer(&[&[1, 2]], &[3], relu, relu_diff);
    assert_eq!(l.output(&column(&[4, 5])), Ok(column(&[17])));
}

#[test]
fn output_is_affine_then_activation() {
    let l = layer(&[&[1, 2, 3], &[-4, -5, -6]], &[10, 20], relu, relu_diff);
    // 1 + 4 + 9 + 10 = 24; -4 - 10 - 18 + 20 = -12.
    assert_eq!(l.output(&column(&[1, 2, 3])), Ok(column(&[24, 0])));
    assert_eq!(l.pre_activate(&column(&[1, 2, 3])), Ok(column(&[24, -12])));
}

#[test]
fn output_has_one_column_of_output_len() {
    let l = layer(&[&[1, 2], &[3, 4], &[5, 6]], &[0, 0, 0], identity, ones);
    let out = l.output(&column(&[1, 1])).unwrap();
    assert_eq!(out.shape(), Shape { width: 1, height: 3 });
    assert_eq!(out, column(&[3, 7, 11]));
}

#[test]
fn output_refuses_a_wrong_input() {
    let l = layer(&[&[1, 2]], &[3], identity, ones);
    assert_eq!(
        l.output(&column(&[1, 2, 3])),
        Err(Error::ShapeMismatch {
            expected: Shape { width: 1, height: 2 },
            actual: Shape { width: 1, height: 3 },
        })
    );
    assert_eq!(
        l.output(&from_rows(&[&[1, 2], &[3, 4]])),
        Err(Error::ShapeMismatch {
            expected: Shape { width: 1, height: 2 },
            actual: Shape { width: 2, height: 2 },
        })
    );
    assert_eq!(
        l.pre_activate(&from_rows(&[&[1, 2]])),
        Err(Error::ShapeMismatch {
            expected: Shape { width: 1, height: 2 },
            actual: Shape { width: 2, height: 1 },
        })
    );
}

#[test]
fn activation_that_changes_the_shape_is_caught() {
    let l = layer(&[&[1, 2]], &[3], widen, ones);
    assert_eq!(l.output(&column(&[4, 5])), Err(Error::ActivationShapeViolation));
}

#[test]
fn check_activation_compares_shapes() {
    let m = column(&[1, 2]);
    assert_eq!(check_activation(Shape { width: 1, height: 2 }, m.clone()), Ok(m.clone()));
    assert_eq!(
        check_activation(Shape { width: 2, height: 1 }, m.clone()),
        Err(Error::ActivationShapeViolation)
    );
    assert_eq!(
        check_activation(Shape { width: 1, height: 3 }, m),
        Err(Error::ActivationShapeViolation)
    );
}

#[test]
fn set_weight_checks_the_shape() {
    let mut l: Layer<i64, Activation, Activation> = Layer::new(2, 1, identity, ones);
    assert_eq!(
        l.set_weight(from_rows(&[&[1], &[2]])),
        Err(Error::ShapeMismatch {
            expected: Shape { width: 2, height: 1 },
            actual: Shape { width: 1, height: 2 },
        })
    );
    // nothing changed
    assert_eq!(l.output(&column(&[4, 5])), Ok(column(&[0])));
    assert_eq!(l.set_weight(from_rows(&[&[1, 2]])), Ok(()));
    assert_eq!(l.output(&column(&[4, 5])), Ok(column(&[14])));
}

#[test]
fn set_bias_checks_the_shape() {
    let mut l: Layer<i64, Activation, Activation> = Layer::new(2, 2, identity, ones);
    assert_eq!(
        l.set_bias(from_rows(&[&[1, 2]])),
        Err(Error::ShapeMismatch {
            expected: Shape { width: 1, height: 2 },
            actual: Shape { width: 2, height: 1 },
        })
    );
    assert_eq!(l.output(&column(&[4, 5])), Ok(column(&[0, 0])));
    assert_eq!(l.set_bias(column(&[7, 8])), Ok(()));
    assert_eq!(l.output(&column(&[4, 5])), Ok(column(&[7, 8])));
}

#[test]
fn parm_set_fills_the_weights() {
    let mut l: Layer<i64, Activation, Activation> = Layer::new(3, 2, identity, ones);
    l.parm_set(|| 2);
    assert_eq!(l.input_len(), 3);
    assert_eq!(l.output_len(), 2);
    assert_eq!(l.output(&column(&[1, 10, 100])), Ok(column(&[222, 222])));
}

#[test]
fn empty_model_hands_the_input_back() {
    let model: Model<i64, Activation, Activation> = Model::new();
    assert_eq!(model.len(), 0);
    let input = from_rows(&[&[1, 2], &[3, 4]]);
    assert_eq!(model.run(input.clone()), Ok(input));
}

#[test]
fn first_layer_is_always_taken() {
    let mut model = Model::new();
    assert_eq!(model.push(layer(&[&[1, 2, 3, 4, 5]], &[0], identity, ones)), Ok(()));
    assert_eq!(model.len(), 1);
    let mut other = Model::new();
    let wide: Layer<i64, Activation, Activation> = Layer::new(0, 7, identity, ones);
    assert_eq!(other.push(wide), Ok(()));
    assert_eq!(other.len(), 1);
}

#[test]
fn push_refuses_a_layer_that_does_not_fit() {
    let mut model = Model::new();
    assert_eq!(model.push(layer(&[&[1, 2], &[3, 4], &[5, 6]], &[0, 0, 0], identity, ones)), Ok(()));
    assert_eq!(
        model.push(layer(&[&[1, 2]], &[0], identity, ones)),
        Err(Error::ShapeMismatch {
            expected: Shape { width: 1, height: 3 },
            actual: Shape { width: 1, height: 2 },
        })
    );
    assert_eq!(model.len(), 1);
    assert_eq!(model.push(layer(&[&[1, 1, 1]], &[0], identity, ones)), Ok(()));
    assert_eq!(model.len(), 2);
}

#[test]
fn run_feeds_each_layer_the_output_of_the_one_before() {
    let mut model = Model::new();
    assert_eq!(model.push(layer(&[&[1, -1], &[-1, 1]], &[0, 0], relu, relu_diff)), Ok(()));
    assert_eq!(model.push(layer(&[&[2, 3]], &[1], identity, ones)), Ok(()));
    // first layer: relu([3 - 5, 5 - 3]) = [0, 2]; second: 2 * 0 + 3 * 2 + 1 = 7.
    assert_eq!(model.run(column(&[3, 5])), Ok(column(&[7])));
    // and again: running changes nothing
    assert_eq!(model.run(column(&[5, 3])), Ok(column(&[5])));
}

#[test]
fn run_stops_at_the_first_error() {
    let mut model = Model::new();
    assert_eq!(model.push(layer(&[&[1, 2]], &[0], identity, ones)), Ok(()));
    assert_eq!(model.push(layer(&[&[1]], &[0], widen, ones)), Ok(()));
    assert_eq!(model.push(layer(&[&[1]], &[0], identity, ones)), Ok(()));
    assert_eq!(model.run(column(&[1, 1])), Err(Error::ActivationShapeViolation));
    assert_eq!(
        model.run(column(&[1, 1, 1])),
        Err(Error::ShapeMismatch {
            expected: Shape { width: 1, height: 2 },
            actual: Shape { width: 1, height: 3 },
        })
    );
}

#[test]
fn clones_compute_the_same() {
    let l = layer(&[&[1, 2], &[3, 4]], &[5, 6], relu, relu_diff);
    let copy = l.clone();
    assert_eq!(copy.input_len(), 2);
    assert_eq!(copy.output_len(), 2);
    assert_eq!(copy.output(&column(&[1, 1])), l.output(&column(&[1, 1])));
    assert_eq!(copy.output(&column(&[1, 1])), Ok(column(&[8, 13])));

    let mut model = Model::new();
    assert_eq!(model.push(l), Ok(()));
    assert_eq!(model.push(layer(&[&[1, -1]], &[0], identity, ones)), Ok(()));
    let twin = model.clone();
    assert_eq!(twin.len(), 2);
    assert_eq!(twin.run(column(&[1, 1])), Ok(column(&[-5])));
    assert_eq!(model.run(column(&[1, 1])), Ok(column(&[-5])));
}
