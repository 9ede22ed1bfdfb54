//! What a configuration takes from a document, member by member.

use vstd::prelude::*;

use crate::config;
use crate::config::{Field, VitsConfig};
use crate::json;
use crate::json::JsonView;

verus! {

/// The whole number that a value is, if it is one that is not negative and not above a limit.
pub open spec fn count_of(v: JsonView, most: int) -> Option<int> {
    match v {
        JsonView::Number(n) => match n.unsigned {
            Some(u) => if u <= most {
                Some(u as int)
            } else {
                None
            },
            None => None,
        },
        _ => None,
    }
}

/// The whole number under a name, and the default where there is none in range.
pub open spec fn count_in(j: JsonView, name: Seq<char>, most: int, default: int) -> int {
    match json::member(j, name) {
        Some(v) => match count_of(v, most) {
            Some(n) => n,
            None => default,
        },
        None => default,
    }
}

/// The pattern of the number under a name, and the default where there is none.
pub open spec fn number_in(j: JsonView, name: Seq<char>, default: u64) -> u64 {
    match json::member(j, name) {
        Some(JsonView::Number(n)) => match n.real {
            Some(r) => r.bits,
            None => default,
        },
        _ => default,
    }
}

/// The switch under a name, and the default where there is none.
pub open spec fn switch_in(j: JsonView, name: Seq<char>, default: bool) -> bool {
    match json::member(j, name) {
        Some(JsonView::Bool(b)) => b,
        _ => default,
    }
}

/// The text under a name, and the default where there is none.
pub open spec fn text_in(j: JsonView, name: Seq<char>, default: Seq<char>) -> Seq<char> {
    match json::member(j, name) {
        Some(JsonView::Text(s)) => s,
        _ => default,
    }
}

/// Whether a list holds the whole numbers of an array, all of them.
pub open spec fn lists(v: JsonView, found: Seq<usize>) -> bool {
    &&& v is Array
    &&& found.len() == v->Array_0.len()
    &&& forall|k: int|
        0 <= k < found.len() ==> count_of(v->Array_0[k], usize::MAX as int) == Some(
            #[trigger] found[k] as int,
        )
}

/// Whether a list holds the whole numbers of the array under a name, and the default where there is
/// no such array.
pub open spec fn list_in(
    j: JsonView,
    name: Seq<char>,
    default: Seq<usize>,
    found: Seq<usize>,
) -> bool {
    match json::member(j, name) {
        Some(v) => lists(v, found) || (found == default && !exists|s: Seq<usize>|
            #[trigger] lists(v, s)),
        None => found == default,
    }
}

proof fn lemma_list(j: JsonView, name: Seq<char>, default: Seq<usize>)
    ensures
        list_in(j, name, default, config::field_at::<Vec<usize>>(j, name, default)),
{
    if let Some(v) = json::member(j, name) {
        let found = config::field_at::<Vec<usize>>(j, name, default);
        match <Vec<usize> as Field>::read(v) {
            Some(s) => {
                let items = v->Array_0;
                assert forall|k: int| 0 <= k < found.len() implies count_of(
                    items[k],
                    usize::MAX as int,
                ) == Some(#[trigger] found[k] as int) by {
                    assert(<usize as Field>::read(items[k]) is Some);
                }
                assert(lists(v, found));
            },
            None => {
                if exists|s: Seq<usize>| #[trigger] lists(v, s) {
                    let s = choose|s: Seq<usize>| #[trigger] lists(v, s);
                    let items = v->Array_0;
                    assert forall|k: int| 0 <= k < items.len() implies <usize as Field>::read(
                        #[trigger] items[k],
                    ) is Some by {
                        assert(count_of(items[k], usize::MAX as int) == Some(s[k] as int));
                    }
                    assert(false);
                }
            },
        }
    }
}

/// Every field is the member of its own name, where the document has one of the right kind, and its
/// own default where it has none.
pub proof fn lemma_each_member(c: VitsConfig, j: JsonView)
    requires
        c.describes(j),
    ensures
        c.vocab_size == count_in(j, "vocab_size"@, usize::MAX as int, 38),
        c.hidden_size == count_in(j, "hidden_size"@, usize::MAX as int, 192),
        c.num_hidden_layers == count_in(j, "num_hidden_layers"@, usize::MAX as int, 6),
        c.num_attention_heads == count_in(j, "num_attention_heads"@, usize::MAX as int, 2),
        c.window_size == count_in(j, "window_size"@, usize::MAX as int, 4),
        c.use_bias == switch_in(j, "use_bias"@, true),
        c.ffn_dim == count_in(j, "ffn_dim"@, usize::MAX as int, 768),
        c.ffn_kernel_size == count_in(j, "ffn_kernel_size"@, usize::MAX as int, 3),
        c.flow_size == count_in(j, "flow_size"@, usize::MAX as int, 192),
        c.spectrogram_bins == count_in(j, "spectrogram_bins"@, usize::MAX as int, 513),
        c.hidden_act@ == text_in(j, "hidden_act"@, "relu"@),
        c.hidden_dropout.bits == number_in(j, "hidden_dropout"@, 0x3FB9_9999_9999_999A),
        c.attention_dropout.bits == number_in(j, "attention_dropout"@, 0x3FB9_9999_9999_999A),
        c.activation_dropout.bits == number_in(j, "activation_dropout"@, 0x3FB9_9999_9999_999A),
        c.layer_norm_eps.bits == number_in(j, "layer_norm_eps"@, 0x3EE4_F8B5_88E3_68F1),
        c.use_stochastic_duration_prediction == switch_in(j, "use_stochastic_duration_prediction"@, true),
        c.num_speakers == count_in(j, "num_speakers"@, usize::MAX as int, 1),
        c.speaker_embedding_size == count_in(j, "speaker_embedding_size"@, usize::MAX as int, 0),
        c.upsample_initial_channel == count_in(j, "upsample_initial_channel"@, usize::MAX as int, 512),
        list_in(j, "upsample_rates"@, seq![8usize, 8usize, 2usize, 2usize], c.upsample_rates@),
        list_in(j, "upsample_kernel_sizes"@, seq![16usize, 16usize, 4usize, 4usize], c.upsample_kernel_sizes@),
        list_in(j, "resblock_kernel_sizes"@, seq![3usize, 7usize, 11usize], c.resblock_kernel_sizes@),
        c.leaky_relu_slope.bits == number_in(j, "leaky_relu_slope"@, 0x3FB9_9999_9999_999A),
        c.depth_separable_channels == count_in(j, "depth_separable_channels"@, usize::MAX as int, 2),
        c.depth_separable_num_layers == count_in(j, "depth_separable_num_layers"@, usize::MAX as int, 3),
        c.duration_predictor_flow_bins == count_in(j, "duration_predictor_flow_bins"@, usize::MAX as int, 10),
        c.duration_predictor_tail_bound.bits == number_in(j, "duration_predictor_tail_bound"@, 0x4014_0000_0000_0000),
        c.duration_predictor_kernel_size == count_in(j, "duration_predictor_kernel_size"@, usize::MAX as int, 3),
        c.duration_predictor_dropout.bits == number_in(j, "duration_predictor_dropout"@, 0x3FE0_0000_0000_0000),
        c.duration_predictor_num_flows == count_in(j, "duration_predictor_num_flows"@, usize::MAX as int, 4),
        c.duration_predictor_filter_channels == count_in(j, "duration_predictor_filter_channels"@, usize::MAX as int, 256),
        c.prior_encoder_num_flows == count_in(j, "prior_encoder_num_flows"@, usize::MAX as int, 4),
        c.prior_encoder_num_wavenet_layers == count_in(j, "prior_encoder_num_wavenet_layers"@, usize::MAX as int, 4),
        c.wavenet_kernel_size == count_in(j, "wavenet_kernel_size"@, usize::MAX as int, 5),
        c.wavenet_dilation_rate == count_in(j, "wavenet_dilation_rate"@, usize::MAX as int, 1),
        c.wavenet_dropout.bits == number_in(j, "wavenet_dropout"@, 0x0000_0000_0000_0000),
        c.speaking_rate.bits == number_in(j, "speaking_rate"@, 0x3FF0_0000_0000_0000),
        c.noise_scale.bits == number_in(j, "noise_scale"@, 0x3FE5_5810_624D_D2F2),
        c.noise_scale_duration.bits == number_in(j, "noise_scale_duration"@, 0x3FE9_9999_9999_999A),
        c.sampling_rate == count_in(j, "sampling_rate"@, u32::MAX as int, 16_000),
        c.pad_token_id == match json::member(j, "pad_token_id"@) {
            Some(v) => match count_of(v, usize::MAX as int) {
                Some(n) => Some(n as usize),
                None => None,
            },
            None => None,
        },
{
    lemma_list(j, "upsample_rates"@, seq![8usize, 8usize, 2usize, 2usize]);
    assert(c.upsample_rates@ =~= c.upsample_rates.deep_view());
    lemma_list(j, "upsample_kernel_sizes"@, seq![16usize, 16usize, 4usize, 4usize]);
    assert(c.upsample_kernel_sizes@ =~= c.upsample_kernel_sizes.deep_view());
    lemma_list(j, "resblock_kernel_sizes"@, seq![3usize, 7usize, 11usize]);
    assert(c.resblock_kernel_sizes@ =~= c.resblock_kernel_sizes.deep_view());
}

/// The dilations of the residual blocks: the lists of whole numbers of the array of arrays under
/// their name, and three times one, three and five where there is none.
pub proof fn lemma_dilations(c: VitsConfig, j: JsonView, k: int)
    requires
        c.describes(j),
        0 <= k < c.resblock_dilation_sizes@.len(),
    ensures
        ({
            let found = c.resblock_dilation_sizes@[k]@;
            match json::member(j, "resblock_dilation_sizes"@) {
                Some(v) => (v is Array && c.resblock_dilation_sizes@.len() == v->Array_0.len()
                    && lists(v->Array_0[k], found)) || (c.resblock_dilation_sizes@.len() == 3
                    && found == seq![1usize, 3usize, 5usize]),
                None => c.resblock_dilation_sizes@.len() == 3 && found == seq![
                    1usize,
                    3usize,
                    5usize,
                ],
            }
        }),
{
    let all = c.resblock_dilation_sizes;
    let found = all@[k]@;
    assert(found =~= all@[k].deep_view());
    assert(all.deep_view().len() == all@.len());
    assert(all.deep_view()[k] == all@[k].deep_view());
    assert(all.deep_view() == config::field_at::<Vec<Vec<usize>>>(
        j,
        "resblock_dilation_sizes"@,
        config::default_dilations(),
    ));
    if let Some(v) = json::member(j, "resblock_dilation_sizes"@) {
        if <Vec<Vec<usize>> as Field>::read(v) is Some {
            let items = v->Array_0;
            let got = <Vec<Vec<usize>> as Field>::read(v)->0;
            assert(all.deep_view() == got);
            assert(got.len() == items.len());
            let inner = items[k];
            assert(<Vec<usize> as Field>::read(inner) is Some);
            assert(got[k] == <Vec<usize> as Field>::read(inner)->0);
            let numbers = inner->Array_0;
            assert(found == <Vec<usize> as Field>::read(inner)->0);
            assert forall|n: int| 0 <= n < found.len() implies count_of(
                numbers[n],
                usize::MAX as int,
            ) == Some(#[trigger] found[n] as int) by {
                assert(<usize as Field>::read(numbers[n]) is Some);
            }
            assert(lists(inner, found));
        }
    }
}

} // verus!
