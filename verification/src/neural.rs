//! Threshold networks: layers of linear threshold units with small integer
//! weights, evolved like any other individual.

use crate::digital::{clone_columns, matrix_view};
use crate::genetic::{lemma_mutated_step, mutated_from, Individual};
use crate::random::draw_below;
use crate::text::{decimal, push_decimal};
use vstd::prelude::*;

verus! {

/// What a layer holds: for each output a row of weights, one for each input,
/// and a threshold.
pub struct LayerModel {
    pub in_size: nat,
    pub weights: Seq<Seq<i8>>,
    pub thresholds: Seq<i8>,
}

/// The largest number of inputs of a layer: the sums of a unit then fit in an
/// `i32`.
pub const MAX_LAYER_INPUTS: usize = 0xff_ffff;

/// The sum of the weights of the inputs that are set.
pub open spec fn weighted_sum(weights: Seq<i8>, input: Seq<bool>) -> int
    decreases weights.len(),
{
    if weights.len() == 0 {
        0
    } else {
        weighted_sum(weights.drop_last(), input.drop_last()) + if input.last() {
            weights.last() as int
        } else {
            0
        }
    }
}

/// A weighted sum is bounded by the number of weights.
pub proof fn lemma_weighted_sum_bound(weights: Seq<i8>, input: Seq<bool>)
    ensures
        -128 * weights.len() <= weighted_sum(weights, input) <= 127 * weights.len(),
    decreases weights.len(),
{
    if weights.len() > 0 {
        lemma_weighted_sum_bound(weights.drop_last(), input.drop_last());
    }
}

/// The sum of two small integers in wrapping arithmetic.
pub open spec fn wrapped_sum(value: i8, delta: i8) -> i8 {
    if value + delta > i8::MAX {
        (value + delta - 256) as i8
    } else if value + delta < i8::MIN {
        (value + delta + 256) as i8
    } else {
        (value + delta) as i8
    }
}

/// The layer is consistent: as many rows of weights as thresholds, each row
/// with one weight for each input, and no more inputs than the limit.
pub open spec fn layer_wf(layer: LayerModel) -> bool {
    &&& layer.in_size <= MAX_LAYER_INPUTS
    &&& layer.weights.len() == layer.thresholds.len()
    &&& forall|i: int|
        0 <= i < layer.weights.len() ==> (#[trigger] layer.weights[i]).len() == layer.in_size
}

/// What a layer makes of an input: unit `i` fires where the weighted sum of
/// the input exceeds its threshold.
pub open spec fn layer_output(layer: LayerModel, input: Seq<bool>) -> Seq<bool> {
    Seq::new(
        layer.thresholds.len(),
        |i: int| weighted_sum(layer.weights[i], input) - layer.thresholds[i] > 0,
    )
}

/// The layer with all weights and thresholds zero.
pub open spec fn null_layer(in_size: nat, out_size: nat) -> LayerModel {
    LayerModel {
        in_size,
        weights: Seq::new(out_size, |i: int| Seq::new(in_size, |j: int| 0i8)),
        thresholds: Seq::new(out_size, |i: int| 0i8),
    }
}

/// The layer with `delta` added to one value of one unit: to its weight for
/// input `slot`, or to its threshold where `slot` is the number of inputs.
pub open spec fn layer_adjusted(layer: LayerModel, output: int, slot: int, delta: i8) -> LayerModel {
    if slot == layer.in_size {
        LayerModel {
            thresholds: layer.thresholds.update(
                output,
                wrapped_sum(layer.thresholds[output], delta),
            ),
            ..layer
        }
    } else {
        LayerModel {
            weights: layer.weights.update(
                output,
                layer.weights[output].update(slot, wrapped_sum(layer.weights[output][slot], delta)),
            ),
            ..layer
        }
    }
}

/// `after` is `before` with one value changed by a delta of magnitude 1 to 4.
pub open spec fn layer_mutation(before: LayerModel, after: LayerModel) -> bool {
    exists|output: int, slot: int, delta: i8|
        0 <= output < before.thresholds.len() && 0 <= slot <= before.in_size && 1 <= (if delta
            < 0 {
            -delta
        } else {
            delta as int
        }) <= 4 && after == #[trigger] layer_adjusted(before, output, slot, delta)
}

/// What a chain of layers makes of an input.
pub open spec fn network_output(layers: Seq<LayerModel>, input: Seq<bool>) -> Seq<bool>
    decreases layers.len(),
{
    if layers.len() == 0 {
        input
    } else {
        network_output(layers.drop_first(), layer_output(layers[0], input))
    }
}

/// The output of a chain of layers has one bit for each unit of the last
/// layer.
pub proof fn lemma_network_output_len(layers: Seq<LayerModel>, input: Seq<bool>)
    requires
        layers.len() > 0,
    ensures
        network_output(layers, input).len() == layers.last().thresholds.len(),
    decreases layers.len(),
{
    let rest = layers.drop_first();
    if rest.len() > 0 {
        lemma_network_output_len(rest, layer_output(layers[0], input));
        assert(rest.last() == layers.last());
    } else {
        assert(network_output(rest, layer_output(layers[0], input)) == layer_output(
            layers[0],
            input,
        ));
    }
}

/// The network is consistent: it has a layer, each layer is consistent, and
/// each layer takes as many inputs as the layer before it has outputs.
pub open spec fn network_wf(layers: Seq<LayerModel>) -> bool {
    &&& layers.len() > 0
    &&& forall|k: int| 0 <= k < layers.len() ==> layer_wf(#[trigger] layers[k])
    &&& forall|k: int|
        0 <= k < layers.len() - 1 ==> (#[trigger] layers[k + 1]).in_size
            == layers[k].thresholds.len()
}

/// The network of `net_depth` layers with all weights and thresholds zero:
/// square layers of `in_size` units, then one of `out_size` units.
pub open spec fn null_network(in_size: nat, out_size: nat, net_depth: nat) -> Seq<LayerModel> {
    Seq::new(
        net_depth,
        |k: int|
            if k < net_depth - 1 {
                null_layer(in_size, in_size)
            } else {
                null_layer(in_size, out_size)
            },
    )
}

/// `after` is `before` with one layer mutated.
pub open spec fn network_mutation(before: Seq<LayerModel>, after: Seq<LayerModel>) -> bool {
    exists|k: int|
        0 <= k < before.len() && layer_mutation(before[k], #[trigger] after[k]) && after
            == before.update(k, after[k])
}

/// One layer of linear threshold units.
#[derive(Debug)]
pub struct Layer {
    pub in_size: usize,
    weights: Vec<Vec<i8>>,
    thresholds: Vec<i8>,
}

impl Clone for Layer {
    fn clone(&self) -> (copy: Layer)
        ensures
            copy@ == self@,
    {
        let mut thresholds: Vec<i8> = Vec::with_capacity(self.thresholds.len());
        let mut i: usize = 0;
        while i < self.thresholds.len()
            invariant
                i <= self.thresholds@.len(),
                thresholds@ == self.thresholds@.take(i as int),
            decreases self.thresholds@.len() - i,
        {
            thresholds.push(self.thresholds[i]);
            i += 1;
            assert(thresholds@ =~= self.thresholds@.take(i as int));
        }
        assert(thresholds@ =~= self.thresholds@);
        Layer { in_size: self.in_size, weights: clone_columns(&self.weights), thresholds }
    }
}

impl View for Layer {
    type V = LayerModel;

    closed spec fn view(&self) -> LayerModel {
        LayerModel {
            in_size: self.in_size as nat,
            weights: matrix_view(self.weights),
            thresholds: self.thresholds@,
        }
    }
}

impl Layer {
    /// The layer with all weights and thresholds zero.
    pub fn new(in_size: usize, out_size: usize) -> (lay: Layer)
        requires
            in_size <= MAX_LAYER_INPUTS,
        ensures
            layer_wf(lay@),
            lay@ == null_layer(in_size as nat, out_size as nat),
    {
        let mut lay = Layer {
            in_size,
            weights: Vec::with_capacity(out_size),
            thresholds: Vec::with_capacity(out_size),
        };
        let mut i: usize = 0;
        while i < out_size
            invariant
                i <= out_size,
                lay.in_size == in_size,
                lay.thresholds@ == Seq::new(i as nat, |k: int| 0i8),
                lay.weights@.len() == i,
                forall|k: int|
                    0 <= k < i ==> (#[trigger] lay.weights@[k])@ == Seq::new(
                        in_size as nat,
                        |j: int| 0i8,
                    ),
            decreases out_size - i,
        {
            lay.thresholds.push(0);
            let mut row: Vec<i8> = Vec::with_capacity(in_size);
            let mut j: usize = 0;
            while j < in_size
                invariant
                    j <= in_size,
                    row@ == Seq::new(j as nat, |k: int| 0i8),
                decreases in_size - j,
            {
                row.push(0);
                j += 1;
                assert(row@ =~= Seq::new(j as nat, |k: int| 0i8));
            }
            lay.weights.push(row);
            i += 1;
            assert(lay.thresholds@ =~= Seq::new(i as nat, |k: int| 0i8));
        }
        assert(lay@.weights =~= null_layer(in_size as nat, out_size as nat).weights);
        lay
    }

    /// Adds `delta`, in wrapping arithmetic, to one value of one unit: to its
    /// weight for input `chosen_input`, or to its threshold where
    /// `chosen_input` is the number of inputs.
    pub fn adjust(&mut self, chosen_output: usize, chosen_input: usize, delta: i8)
        requires
            layer_wf(old(self)@),
            chosen_output < old(self)@.thresholds.len(),
            chosen_input <= old(self)@.in_size,
        ensures
            layer_wf(final(self)@),
            final(self)@ == layer_adjusted(
                old(self)@,
                chosen_output as int,
                chosen_input as int,
                delta,
            ),
    {
        if chosen_input == self.in_size {
            let value = self.thresholds[chosen_output];
            self.thresholds[chosen_output] = value.wrapping_add(delta);
        } else {
            assert(self@.weights[chosen_output as int].len() == self@.in_size);
            let value = self.weights[chosen_output][chosen_input];
            self.weights[chosen_output][chosen_input] = value.wrapping_add(delta);
            assert(self@.weights =~= layer_adjusted(
                old(self)@,
                chosen_output as int,
                chosen_input as int,
                delta,
            ).weights);
        }
    }

    /// Changes one weight or threshold, drawn at random, by a delta of
    /// magnitude 1 to 4, drawn at random with its sign. The layer must have a
    /// unit.
    pub fn mutate(&mut self)
        requires
            layer_wf(old(self)@),
            old(self)@.thresholds.len() > 0,
        ensures
            layer_wf(final(self)@),
            layer_mutation(old(self)@, final(self)@),
    {
        let chosen_output = draw_below(self.output_size());
        let chosen_input = draw_below(self.in_size + 1);
        let magnitude = draw_below(4);
        let mut mutation: i8 = match magnitude {
            0 => 1,
            1 => 2,
            2 => 3,
            _ => 4,
        };
        // half the times, make the connection weaker rather than stronger
        if draw_below(2) > 0 {
            mutation = -mutation;
        }
        self.adjust(chosen_output, chosen_input, mutation);
    }

    /// The number of units.
    pub fn output_size(&self) -> (size: usize)
        ensures
            size == self@.thresholds.len(),
    {
        self.thresholds.len()
    }

    /// What the layer makes of an input: one bit for each unit.
    pub fn calculate_output(&self, input: &Vec<bool>) -> (output: Vec<bool>)
        requires
            layer_wf(self@),
            input@.len() == self@.in_size,
        ensures
            output@ == layer_output(self@, input@),
    {
        let mut output: Vec<bool> = Vec::with_capacity(self.output_size());
        let mut i: usize = 0;
        while i < self.output_size()
            invariant
                layer_wf(self@),
                input@.len() == self@.in_size,
                i <= self@.thresholds.len(),
                output@.len() == i,
                forall|k: int|
                    0 <= k < i ==> output@[k] == (weighted_sum(self@.weights[k], input@)
                        - self@.thresholds[k] > 0),
            decreases self@.thresholds.len() - i,
        {
            let mut result: i32 = 0;
            let mut j: usize = 0;
            let ghost row = self@.weights[i as int];
            assert(row.len() == self@.in_size);
            while j < self.in_size
                invariant
                    layer_wf(self@),
                    input@.len() == self@.in_size,
                    i < self@.thresholds.len(),
                    row == self@.weights[i as int],
                    row == self.weights@[i as int]@,
                    row.len() == self@.in_size,
                    j <= self@.in_size,
                    self.in_size == self@.in_size,
                    result == weighted_sum(row.take(j as int), input@.take(j as int)),
                decreases self@.in_size - j,
            {
                proof {
                    lemma_weighted_sum_bound(row.take(j as int), input@.take(j as int));
                    assert(row.take(j + 1).drop_last() =~= row.take(j as int));
                    assert(input@.take(j + 1).drop_last() =~= input@.take(j as int));
                }
                if input[j] {
                    result += self.weights[i][j] as i32;
                }
                j += 1;
            }
            proof {
                assert(row.take(j as int) =~= row);
                assert(input@.take(j as int) =~= input@);
                lemma_weighted_sum_bound(row, input@);
            }
            result -= self.thresholds[i] as i32;
            output.push(result > 0);
            i += 1;
        }
        assert(output@ =~= layer_output(self@, input@));
        output
    }
}

/// An artificial neural network: a chain of layers of threshold units.
#[derive(Debug)]
pub struct NeuralNetwork {
    layers: Vec<Layer>,
}

impl View for NeuralNetwork {
    type V = Seq<LayerModel>;

    closed spec fn view(&self) -> Seq<LayerModel> {
        Seq::new(self.layers@.len(), |k: int| self.layers@[k]@)
    }
}

impl Clone for NeuralNetwork {
    fn clone(&self) -> (copy: NeuralNetwork)
        ensures
            copy@ == self@,
    {
        let mut layers: Vec<Layer> = Vec::with_capacity(self.layers.len());
        let mut k: usize = 0;
        while k < self.layers.len()
            invariant
                k <= self.layers@.len(),
                layers@.len() == k,
                forall|i: int| 0 <= i < k ==> (#[trigger] layers@[i])@ == self.layers@[i]@,
            decreases self.layers@.len() - k,
        {
            layers.push(self.layers[k].clone());
            k += 1;
        }
        let copy = NeuralNetwork { layers };
        assert(copy@ =~= self@);
        copy
    }
}

impl NeuralNetwork {
    /// The network of `net_depth` layers with all weights and thresholds
    /// zero. It must have a layer.
    pub fn new_null(in_size: usize, out_size: usize, net_depth: usize) -> (nn: NeuralNetwork)
        requires
            net_depth >= 1,
            in_size <= MAX_LAYER_INPUTS,
        ensures
            nn.wf(),
            nn@ == null_network(in_size as nat, out_size as nat, net_depth as nat),
    {
        let mut nn = NeuralNetwork { layers: vec![] };
        let mut k: usize = 0;
        while k < net_depth - 1
            invariant
                net_depth >= 1,
                in_size <= MAX_LAYER_INPUTS,
                k <= net_depth - 1,
                nn.layers@.len() == k,
                forall|i: int|
                    0 <= i < k ==> (#[trigger] nn.layers@[i])@ == null_layer(
                        in_size as nat,
                        in_size as nat,
                    ),
            decreases net_depth - 1 - k,
        {
            nn.layers.push(Layer::new(in_size, in_size));
            k += 1;
        }
        nn.layers.push(Layer::new(in_size, out_size));
        assert(nn@ =~= null_network(in_size as nat, out_size as nat, net_depth as nat));
        nn
    }

    /// The all-zero network after `num_mutations` mutations in a row.
    pub fn new_muta(in_size: usize, out_size: usize, net_depth: usize, num_mutations: u32) -> (nn:
        NeuralNetwork)
        requires
            net_depth >= 1,
            in_size <= MAX_LAYER_INPUTS,
            num_mutations > 0 ==> out_size > 0 && (net_depth > 1 ==> in_size > 0),
        ensures
            nn.wf(),
            nn.spec_input_size() == in_size,
            nn.spec_output_size() == out_size,
            nn@.len() == net_depth,
            exists|null: NeuralNetwork|
                null@ == null_network(in_size as nat, out_size as nat, net_depth as nat)
                    && #[trigger] mutated_from(nn, null, num_mutations as nat),
    {
        let mut nn = NeuralNetwork::new_null(in_size, out_size, net_depth);
        let ghost null = nn;
        let mut i: u32 = 0;
        while i < num_mutations
            invariant
                i <= num_mutations,
                nn.wf(),
                num_mutations > 0 ==> nn.can_mutate(),
                nn.spec_input_size() == in_size,
                nn.spec_output_size() == out_size,
                nn@.len() == net_depth,
                mutated_from(nn, null, i as nat),
            decreases num_mutations - i,
        {
            let ghost parent = nn;
            nn.mutate();
            proof {
                lemma_mutated_step(nn, parent, null, i as nat);
            }
            i += 1;
        }
        nn
    }
}

impl Individual for NeuralNetwork {
    open spec fn wf(&self) -> bool {
        network_wf(self@)
    }

    open spec fn spec_input_size(&self) -> nat {
        self@[0].in_size
    }

    open spec fn spec_output_size(&self) -> nat {
        self@.last().thresholds.len()
    }

    open spec fn spec_calculate_output(&self, input: Seq<bool>) -> Seq<bool> {
        network_output(self@, input)
    }

    /// Every layer has a unit: whichever layer is drawn, it can mutate.
    open spec fn can_mutate(&self) -> bool {
        forall|k: int| 0 <= k < self@.len() ==> (#[trigger] self@[k]).thresholds.len() > 0
    }

    open spec fn mutation_of(&self, parent: &Self) -> bool {
        network_mutation(parent@, self@)
    }

    /// The number of layers, on one line.
    open spec fn spec_print(&self) -> Seq<char> {
        ("NeuralNetwork (net_depth "@ + decimal(self@.len())).push(')').push('\n')
    }

    fn print(&self) -> (text: String) {
        let mut text = String::new();
        proof {
            reveal_strlit("NeuralNetwork (net_depth ");
        }
        text.push_str("NeuralNetwork (net_depth ");
        push_decimal(&mut text, self.layers.len());
        text.push(')');
        text.push('\n');
        assert(text@ =~= self.spec_print());
        text
    }

    fn calculate_output(&self, input: &Vec<bool>) -> (output: Vec<bool>) {
        let num_layers = self.layers.len();
        assert(self@[0] == self.layers@[0]@);
        let mut output = self.layers[0].calculate_output(input);
        let mut k: usize = 1;
        proof {
            assert(self@.drop_first() =~= self@.skip(1));
        }
        while k < num_layers
            invariant
                self.wf(),
                num_layers == self@.len(),
                num_layers == self.layers@.len(),
                1 <= k <= num_layers,
                output@.len() == self@[k - 1].thresholds.len(),
                network_output(self@.skip(k as int), output@) == network_output(self@, input@),
            decreases num_layers - k,
        {
            proof {
                assert(self@[k as int] == self.layers@[k as int]@);
                assert(self@[(k - 1) + 1].in_size == self@[k - 1].thresholds.len());
                assert(self@.skip(k as int)[0] == self@[k as int]);
                assert(self@.skip(k as int).drop_first() =~= self@.skip(k + 1));
            }
            output = self.layers[k].calculate_output(&output);
            k += 1;
        }
        output
    }

    fn mutate(&mut self) {
        let chosen_layer = draw_below(self.layers.len());
        assert(self@[chosen_layer as int] == self.layers@[chosen_layer as int]@);
        self.layers[chosen_layer].mutate();
        proof {
            let before = old(self)@;
            let after = self@;
            let k = chosen_layer as int;
            assert(after[k] == self.layers@[k]@);
            assert(after =~= before.update(k, after[k]));
            assert(layer_mutation(before[k], after[k]));
            let (output, slot, delta) = choose|output: int, slot: int, delta: i8|
                0 <= output < before[k].thresholds.len() && 0 <= slot <= before[k].in_size && 1
                    <= (if delta < 0 {
                    -delta
                } else {
                    delta as int
                }) <= 4 && after[k] == #[trigger] layer_adjusted(before[k], output, slot, delta);
            assert(after[k].in_size == before[k].in_size);
            assert(after[k].thresholds.len() == before[k].thresholds.len());
            assert forall|i: int| 0 <= i < after.len() implies layer_wf(#[trigger] after[i]) by {
                if i != k {
                    assert(after[i] == before[i]);
                }
            }
            assert forall|i: int| 0 <= i < after.len() - 1 implies (#[trigger] after[i + 1]).in_size
                == after[i].thresholds.len() by {
                assert(before[i + 1].in_size == before[i].thresholds.len());
            }
            assert forall|i: int| 0 <= i < after.len() implies (#[trigger] after[i]).thresholds.len()
                > 0 by {
                assert(before[i].thresholds.len() > 0);
            }
        }
    }

    fn input_size(&self) -> (size: usize) {
        assert(self@[0] == self.layers@[0]@);
        self.layers[0].in_size
    }

    fn output_size(&self) -> (size: usize) {
        assert(self@.last() == self.layers@[self.layers@.len() - 1]@);
        self.layers[self.layers.len() - 1].output_size()
    }

    proof fn lemma_output_size(&self, input: Seq<bool>) {
        lemma_network_output_len(self@, input);
    }

    proof fn lemma_clone(&self, copy: &Self) {
    }
}

} // verus!
