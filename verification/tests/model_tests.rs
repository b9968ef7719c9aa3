use neural_engine::model::{Layer, Sequential};

/// A layer that appends its id going forward and its negated id going backward.
struct Tag {
    id: i64,
}

impl Layer<Vec<i64>> for Tag {
    fn forward_result(&self, mut input: Vec<i64>) -> (Vec<i64>, Self) {
        input.push(self.id);
        (input, Tag { id: self.id })
    }

    fn backward_result(&self, mut output_gradient: Vec<i64>) -> (Vec<i64>, Self) {
        output_gradient.push(-self.id);
        (output_gradient, Tag { id: self.id })
    }

    fn forward(&mut self, mut input: Vec<i64>) -> Vec<i64> {
        input.push(self.id);
        input
    }

    fn backward(&mut self, mut output_gradient: Vec<i64>) -> Vec<i64> {
        output_gradient.push(-self.id);
        output_gradient
    }
}

struct Affine {
    scale: i64,
    shift: i64,
    calls: usize,
}

impl Layer<i64> for Affine {
    fn forward_result(&self, input: i64) -> (i64, Self) {
        let after = Affine { scale: self.scale, shift: self.shift, calls: self.calls + 1 };
        (input * self.scale + self.shift, after)
    }

    fn backward_result(&self, output_gradient: i64) -> (i64, Self) {
        let after = Affine { scale: self.scale, shift: self.shift, calls: self.calls };
        (output_gradient * self.scale, after)
    }

    fn forward(&mut self, input: i64) -> i64 {
        self.calls += 1;
        input * self.scale + self.shift
    }

    fn backward(&mut self, output_gradient: i64) -> i64 {
        output_gradient * self.scale
    }
}

#[test]
fn new_network_is_empty() {
    let model: Sequential<Tag> = Sequential::new();
    assert_eq!(model.layer_count(), 0);
    let default_model: Sequential<Tag> = Sequential::default();
    assert_eq!(default_model.layer_count(), 0);
}

#[test]
fn add_appends_layers() {
    let mut model = Sequential::new();
    model.add(Tag { id: 1 });
    model.add(Tag { id: 2 });
    model.add(Tag { id: 3 });
    assert_eq!(model.layer_count(), 3);
    let ids: Vec<i64> = model.layers_mut().iter().map(|l| l.id).collect();
    assert_eq!(ids, vec![1, 2, 3]);
}

#[test]
fn forward_runs_first_to_last() {
    let mut model = Sequential::new();
    model.add(Tag { id: 1 });
    model.add(Tag { id: 2 });
    model.add(Tag { id: 3 });
    assert_eq!(model.forward(vec![0]), vec![0, 1, 2, 3]);
}

#[test]
fn backward_runs_last_to_first() {
    let mut model = Sequential::new();
    model.add(Tag { id: 1 });
    model.add(Tag { id: 2 });
    model.add(Tag { id: 3 });
    assert_eq!(model.backward(vec![0]), vec![0, -3, -2, -1]);
}

#[test]
fn empty_network_passes_values_through() {
    let mut model: Sequential<Affine> = Sequential::new();
    assert_eq!(model.forward(7), 7);
    assert_eq!(model.backward(-4), -4);
}

#[test]
fn forward_composes_and_predict_matches() {
    let mut model = Sequential::new();
    model.add(Affine { scale: 2, shift: 1, calls: 0 });
    model.add(Affine { scale: 3, shift: -4, calls: 0 });
    // (5 * 2 + 1) * 3 - 4 = 29
    assert_eq!(model.forward(5), 29);
    let input = 5;
    assert_eq!(model.predict(&input), 29);
    assert!(model.layers_mut().iter().all(|l| l.calls == 2));
    assert_eq!(model.backward(1), 6);
}

#[test]
fn forward_matches_the_layers_described_results() {
    let first = Affine { scale: 2, shift: 1, calls: 0 };
    let second = Affine { scale: -1, shift: 10, calls: 0 };
    let (mid, _) = first.forward_result(3);
    let (expected, _) = second.forward_result(mid);
    let mut model = Sequential::new();
    model.add(first);
    model.add(second);
    assert_eq!(model.forward(3), expected);
    assert_eq!(expected, 3);
}
