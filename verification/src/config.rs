//! The configuration of a model.

use vstd::prelude::*;

use crate::json;
use crate::json::{Json, JsonError, JsonView};
use crate::tensor::scalar::{Real, ONE_BITS, ZERO_BITS};

verus! {

/// The pattern of 0.1.
pub const TENTH_BITS: u64 = 0x3FB9_9999_9999_999A;

/// The pattern of 1e-5.
pub const HUNDRED_THOUSANDTH_BITS: u64 = 0x3EE4_F8B5_88E3_68F1;

/// The pattern of 5.
pub const FIVE_BITS: u64 = 0x4014_0000_0000_0000;

/// The pattern of 0.5.
pub const HALF_BITS: u64 = 0x3FE0_0000_0000_0000;

/// The pattern of 0.667.
pub const NOISE_SCALE_BITS: u64 = 0x3FE5_5810_624D_D2F2;

/// The pattern of 0.8.
pub const FOUR_FIFTHS_BITS: u64 = 0x3FE9_9999_9999_999A;

/// A type that a member of a configuration can have.
pub trait Field: DeepView + Sized {
    /// The value that a JSON value stands for, or `None` if it is of another kind or out of range.
    spec fn read(v: JsonView) -> Option<Self::V>;

    /// The value that a JSON value stands for.
    fn from_json(j: &Json) -> (r: Option<Self>)
        ensures
            match r {
                Some(x) => Self::read(j@) == Some(x.deep_view()),
                None => Self::read(j@) is None,
            },
    ;
}

impl DeepView for Real {
    type V = Real;

    open spec fn deep_view(&self) -> Real {
        *self
    }
}

impl Field for usize {
    /// A whole number that is not negative and fits.
    open spec fn read(v: JsonView) -> Option<usize> {
        match v {
            JsonView::Number(n) => match n.unsigned {
                Some(u) => if u <= usize::MAX {
                    Some(u as usize)
                } else {
                    None
                },
                None => None,
            },
            _ => None,
        }
    }

    fn from_json(j: &Json) -> (r: Option<usize>) {
        match j {
            Json::Number(n) => match n.unsigned {
                Some(u) => if u <= usize::MAX as u64 {
                    Some(u as usize)
                } else {
                    None
                },
                None => None,
            },
            _ => None,
        }
    }
}

impl Field for u32 {
    /// A whole number that is not negative and fits.
    open spec fn read(v: JsonView) -> Option<u32> {
        match v {
            JsonView::Number(n) => match n.unsigned {
                Some(u) => if u <= u32::MAX {
                    Some(u as u32)
                } else {
                    None
                },
                None => None,
            },
            _ => None,
        }
    }

    fn from_json(j: &Json) -> (r: Option<u32>) {
        match j {
            Json::Number(n) => match n.unsigned {
                Some(u) => if u <= u32::MAX as u64 {
                    Some(u as u32)
                } else {
                    None
                },
                None => None,
            },
            _ => None,
        }
    }
}

impl Field for Real {
    /// Any number.
    open spec fn read(v: JsonView) -> Option<Real> {
        match v {
            JsonView::Number(n) => n.real,
            _ => None,
        }
    }

    fn from_json(j: &Json) -> (r: Option<Real>) {
        match j {
            Json::Number(n) => n.real,
            _ => None,
        }
    }
}

impl Field for bool {
    open spec fn read(v: JsonView) -> Option<bool> {
        match v {
            JsonView::Bool(b) => Some(b),
            _ => None,
        }
    }

    fn from_json(j: &Json) -> (r: Option<bool>) {
        match j {
            Json::Bool(b) => Some(*b),
            _ => None,
        }
    }
}

impl Field for String {
    open spec fn read(v: JsonView) -> Option<Seq<char>> {
        match v {
            JsonView::Text(s) => Some(s),
            _ => None,
        }
    }

    fn from_json(j: &Json) -> (r: Option<String>) {
        match j {
            Json::Text(s) => Some(s.clone()),
            _ => None,
        }
    }
}

impl Field for Option<usize> {
    /// Nothing for `null`.
    open spec fn read(v: JsonView) -> Option<Option<usize>> {
        match v {
            JsonView::Null => Some(None),
            _ => match <usize as Field>::read(v) {
                Some(n) => Some(Some(n)),
                None => None,
            },
        }
    }

    fn from_json(j: &Json) -> (r: Option<Option<usize>>) {
        match j {
            Json::Null => Some(None),
            _ => match <usize as Field>::from_json(j) {
                Some(n) => Some(Some(n)),
                None => None,
            },
        }
    }
}

impl<T: Field> Field for Vec<T> {
    /// An array of which every item can be read.
    open spec fn read(v: JsonView) -> Option<Seq<T::V>> {
        match v {
            JsonView::Array(s) => if forall|i: int|
                0 <= i < s.len() ==> T::read(#[trigger] s[i]) is Some {
                Some(Seq::new(s.len(), |i: int| T::read(s[i])->0))
            } else {
                None
            },
            _ => None,
        }
    }

    fn from_json(j: &Json) -> (r: Option<Vec<T>>) {
        match j {
            Json::Array(items) => {
                proof {
                    json::lemma_array_view(*items);
                }
                let ghost s = j@->Array_0;
                let mut out: Vec<T> = Vec::new();
                let n = items.len();
                let mut i: usize = 0;
                while i < n
                    invariant
                        i <= n,
                        n == items@.len(),
                        s.len() == n,
                        j@ == JsonView::Array(s),
                        forall|k: int| 0 <= k < n ==> (#[trigger] s[k]) == items@[k]@,
                        out@.len() == i,
                        forall|k: int|
                            0 <= k < i ==> T::read(#[trigger] s[k]) == Some(out@[k].deep_view()),
                    decreases n - i,
                {
                    match T::from_json(&items[i]) {
                        Some(x) => out.push(x),
                        None => {
                            assert(T::read(s[i as int]) is None);
                            return None;
                        },
                    }
                    i = i + 1;
                }
                proof {
                    assert(out.deep_view() =~= Seq::new(s.len(), |k: int| T::read(s[k])->0));
                }
                Some(out)
            },
            _ => None,
        }
    }
}

/// The value of the member `key` where there is one of the right kind, and else the default.
pub open spec fn field_at<T: Field>(j: JsonView, key: Seq<char>, default: T::V) -> T::V {
    match json::member(j, key) {
        Some(v) => match T::read(v) {
            Some(x) => x,
            None => default,
        },
        None => default,
    }
}

/// Copies the member `key` into `field` if it is present and of the right kind, and else leaves
/// `field` as it is.
pub fn merge_field<T: Field>(raw: &Json, key: &str, field: &mut T)
    ensures
        final(field).deep_view() == field_at::<T>(raw@, key@, old(field).deep_view()),
{
    if let Some(value) = raw.get(key) {
        if let Some(parsed) = T::from_json(value) {
            *field = parsed;
        }
    }
}

/// The configuration of a voice.
#[derive(Debug)]
pub struct VitsConfig {
    pub vocab_size: usize,
    pub hidden_size: usize,
    pub num_hidden_layers: usize,
    pub num_attention_heads: usize,
    pub window_size: usize,
    pub use_bias: bool,
    pub ffn_dim: usize,
    pub ffn_kernel_size: usize,
    pub flow_size: usize,
    pub spectrogram_bins: usize,
    pub hidden_act: String,
    pub hidden_dropout: Real,
    pub attention_dropout: Real,
    pub activation_dropout: Real,
    pub layer_norm_eps: Real,
    /// Whether durations are drawn at random; the model supports nothing else.
    pub use_stochastic_duration_prediction: bool,
    pub num_speakers: usize,
    pub speaker_embedding_size: usize,
    pub upsample_initial_channel: usize,
    pub upsample_rates: Vec<usize>,
    pub upsample_kernel_sizes: Vec<usize>,
    pub resblock_kernel_sizes: Vec<usize>,
    pub resblock_dilation_sizes: Vec<Vec<usize>>,
    pub leaky_relu_slope: Real,
    pub depth_separable_channels: usize,
    pub depth_separable_num_layers: usize,
    pub duration_predictor_flow_bins: usize,
    pub duration_predictor_tail_bound: Real,
    pub duration_predictor_kernel_size: usize,
    pub duration_predictor_dropout: Real,
    pub duration_predictor_num_flows: usize,
    pub duration_predictor_filter_channels: usize,
    pub prior_encoder_num_flows: usize,
    pub prior_encoder_num_wavenet_layers: usize,
    pub wavenet_kernel_size: usize,
    pub wavenet_dilation_rate: usize,
    pub wavenet_dropout: Real,
    pub speaking_rate: Real,
    pub noise_scale: Real,
    pub noise_scale_duration: Real,
    pub sampling_rate: u32,
    pub pad_token_id: Option<usize>,
}

/// The dilations of the residual blocks where the configuration names none.
pub open spec fn default_dilations() -> Seq<Seq<usize>> {
    seq![seq![1usize, 3usize, 5usize], seq![1usize, 3usize, 5usize], seq![1usize, 3usize, 5usize]]
}

impl VitsConfig {
    /// Whether every field has its default.
    pub open spec fn is_default(self) -> bool {
        &&& self.vocab_size == 38usize
        &&& self.hidden_size == 192usize
        &&& self.num_hidden_layers == 6usize
        &&& self.num_attention_heads == 2usize
        &&& self.window_size == 4usize
        &&& self.use_bias == true
        &&& self.ffn_dim == 768usize
        &&& self.ffn_kernel_size == 3usize
        &&& self.flow_size == 192usize
        &&& self.spectrogram_bins == 513usize
        &&& self.hidden_act.deep_view() == "relu"@
        &&& self.hidden_dropout == Real { bits: TENTH_BITS }
        &&& self.attention_dropout == Real { bits: TENTH_BITS }
        &&& self.activation_dropout == Real { bits: TENTH_BITS }
        &&& self.layer_norm_eps == Real { bits: HUNDRED_THOUSANDTH_BITS }
        &&& self.use_stochastic_duration_prediction == true
        &&& self.num_speakers == 1usize
        &&& self.speaker_embedding_size == 0usize
        &&& self.upsample_initial_channel == 512usize
        &&& self.upsample_rates.deep_view() == seq![8usize, 8usize, 2usize, 2usize]
        &&& self.upsample_kernel_sizes.deep_view() == seq![16usize, 16usize, 4usize, 4usize]
        &&& self.resblock_kernel_sizes.deep_view() == seq![3usize, 7usize, 11usize]
        &&& self.resblock_dilation_sizes.deep_view() == default_dilations()
        &&& self.leaky_relu_slope == Real { bits: TENTH_BITS }
        &&& self.depth_separable_channels == 2usize
        &&& self.depth_separable_num_layers == 3usize
        &&& self.duration_predictor_flow_bins == 10usize
        &&& self.duration_predictor_tail_bound == Real { bits: FIVE_BITS }
        &&& self.duration_predictor_kernel_size == 3usize
        &&& self.duration_predictor_dropout == Real { bits: HALF_BITS }
        &&& self.duration_predictor_num_flows == 4usize
        &&& self.duration_predictor_filter_channels == 256usize
        &&& self.prior_encoder_num_flows == 4usize
        &&& self.prior_encoder_num_wavenet_layers == 4usize
        &&& self.wavenet_kernel_size == 5usize
        &&& self.wavenet_dilation_rate == 1usize
        &&& self.wavenet_dropout == Real { bits: ZERO_BITS }
        &&& self.speaking_rate == Real { bits: ONE_BITS }
        &&& self.noise_scale == Real { bits: NOISE_SCALE_BITS }
        &&& self.noise_scale_duration == Real { bits: FOUR_FIFTHS_BITS }
        &&& self.sampling_rate == 16_000u32
        &&& self.pad_token_id == None::<usize>
    }

    /// Whether every field has the value that the document gives it, and its default where the
    /// document gives none.
    pub open spec fn describes(self, j: JsonView) -> bool {
        &&& self.vocab_size.deep_view() == field_at::<usize>(j, "vocab_size"@, 38usize)
        &&& self.hidden_size.deep_view() == field_at::<usize>(j, "hidden_size"@, 192usize)
        &&& self.num_hidden_layers.deep_view() == field_at::<usize>(j, "num_hidden_layers"@, 6usize)
        &&& self.num_attention_heads.deep_view() == field_at::<usize>(j, "num_attention_heads"@, 2usize)
        &&& self.window_size.deep_view() == field_at::<usize>(j, "window_size"@, 4usize)
        &&& self.use_bias.deep_view() == field_at::<bool>(j, "use_bias"@, true)
        &&& self.ffn_dim.deep_view() == field_at::<usize>(j, "ffn_dim"@, 768usize)
        &&& self.ffn_kernel_size.deep_view() == field_at::<usize>(j, "ffn_kernel_size"@, 3usize)
        &&& self.flow_size.deep_view() == field_at::<usize>(j, "flow_size"@, 192usize)
        &&& self.spectrogram_bins.deep_view() == field_at::<usize>(j, "spectrogram_bins"@, 513usize)
        &&& self.hidden_act.deep_view() == field_at::<String>(j, "hidden_act"@, "relu"@)
        &&& self.hidden_dropout.deep_view() == field_at::<Real>(j, "hidden_dropout"@, Real { bits: TENTH_BITS })
        &&& self.attention_dropout.deep_view() == field_at::<Real>(j, "attention_dropout"@, Real { bits: TENTH_BITS })
        &&& self.activation_dropout.deep_view() == field_at::<Real>(j, "activation_dropout"@, Real { bits: TENTH_BITS })
        &&& self.layer_norm_eps.deep_view() == field_at::<Real>(j, "layer_norm_eps"@, Real { bits: HUNDRED_THOUSANDTH_BITS })
        &&& self.use_stochastic_duration_prediction.deep_view() == field_at::<bool>(j, "use_stochastic_duration_prediction"@, true)
        &&& self.num_speakers.deep_view() == field_at::<usize>(j, "num_speakers"@, 1usize)
        &&& self.speaker_embedding_size.deep_view() == field_at::<usize>(j, "speaker_embedding_size"@, 0usize)
        &&& self.upsample_initial_channel.deep_view() == field_at::<usize>(j, "upsample_initial_channel"@, 512usize)
        &&& self.upsample_rates.deep_view() == field_at::<Vec<usize>>(j, "upsample_rates"@, seq![8usize, 8usize, 2usize, 2usize])
        &&& self.upsample_kernel_sizes.deep_view() == field_at::<Vec<usize>>(j, "upsample_kernel_sizes"@, seq![16usize, 16usize, 4usize, 4usize])
        &&& self.resblock_kernel_sizes.deep_view() == field_at::<Vec<usize>>(j, "resblock_kernel_sizes"@, seq![3usize, 7usize, 11usize])
        &&& self.resblock_dilation_sizes.deep_view() == field_at::<Vec<Vec<usize>>>(j, "resblock_dilation_sizes"@, default_dilations())
        &&& self.leaky_relu_slope.deep_view() == field_at::<Real>(j, "leaky_relu_slope"@, Real { bits: TENTH_BITS })
        &&& self.depth_separable_channels.deep_view() == field_at::<usize>(j, "depth_separable_channels"@, 2usize)
        &&& self.depth_separable_num_layers.deep_view() == field_at::<usize>(j, "depth_separable_num_layers"@, 3usize)
        &&& self.duration_predictor_flow_bins.deep_view() == field_at::<usize>(j, "duration_predictor_flow_bins"@, 10usize)
        &&& self.duration_predictor_tail_bound.deep_view() == field_at::<Real>(j, "duration_predictor_tail_bound"@, Real { bits: FIVE_BITS })
        &&& self.duration_predictor_kernel_size.deep_view() == field_at::<usize>(j, "duration_predictor_kernel_size"@, 3usize)
        &&& self.duration_predictor_dropout.deep_view() == field_at::<Real>(j, "duration_predictor_dropout"@, Real { bits: HALF_BITS })
        &&& self.duration_predictor_num_flows.deep_view() == field_at::<usize>(j, "duration_predictor_num_flows"@, 4usize)
        &&& self.duration_predictor_filter_channels.deep_view() == field_at::<usize>(j, "duration_predictor_filter_channels"@, 256usize)
        &&& self.prior_encoder_num_flows.deep_view() == field_at::<usize>(j, "prior_encoder_num_flows"@, 4usize)
        &&& self.prior_encoder_num_wavenet_layers.deep_view() == field_at::<usize>(j, "prior_encoder_num_wavenet_layers"@, 4usize)
        &&& self.wavenet_kernel_size.deep_view() == field_at::<usize>(j, "wavenet_kernel_size"@, 5usize)
        &&& self.wavenet_dilation_rate.deep_view() == field_at::<usize>(j, "wavenet_dilation_rate"@, 1usize)
        &&& self.wavenet_dropout.deep_view() == field_at::<Real>(j, "wavenet_dropout"@, Real { bits: ZERO_BITS })
        &&& self.speaking_rate.deep_view() == field_at::<Real>(j, "speaking_rate"@, Real { bits: ONE_BITS })
        &&& self.noise_scale.deep_view() == field_at::<Real>(j, "noise_scale"@, Real { bits: NOISE_SCALE_BITS })
        &&& self.noise_scale_duration.deep_view() == field_at::<Real>(j, "noise_scale_duration"@, Real { bits: FOUR_FIFTHS_BITS })
        &&& self.sampling_rate.deep_view() == field_at::<u32>(j, "sampling_rate"@, 16_000u32)
        &&& self.pad_token_id.deep_view() == field_at::<Option<usize>>(j, "pad_token_id"@, None::<usize>)
    }
}

impl Default for VitsConfig {
    fn default() -> (r: Self)
        ensures
            r.is_default(),
    {
        let r = VitsConfig {
            vocab_size: 38,
            hidden_size: 192,
            num_hidden_layers: 6,
            num_attention_heads: 2,
            window_size: 4,
            use_bias: true,
            ffn_dim: 768,
            ffn_kernel_size: 3,
            flow_size: 192,
            spectrogram_bins: 513,
            hidden_act: "relu".to_owned(),
            hidden_dropout: Real { bits: TENTH_BITS },
            attention_dropout: Real { bits: TENTH_BITS },
            activation_dropout: Real { bits: TENTH_BITS },
            layer_norm_eps: Real { bits: HUNDRED_THOUSANDTH_BITS },
            use_stochastic_duration_prediction: true,
            num_speakers: 1,
            speaker_embedding_size: 0,
            upsample_initial_channel: 512,
            upsample_rates: vec![8, 8, 2, 2],
            upsample_kernel_sizes: vec![16, 16, 4, 4],
            resblock_kernel_sizes: vec![3, 7, 11],
            resblock_dilation_sizes: vec![vec![1, 3, 5], vec![1, 3, 5], vec![1, 3, 5]],
            leaky_relu_slope: Real { bits: TENTH_BITS },
            depth_separable_channels: 2,
            depth_separable_num_layers: 3,
            duration_predictor_flow_bins: 10,
            duration_predictor_tail_bound: Real { bits: FIVE_BITS },
            duration_predictor_kernel_size: 3,
            duration_predictor_dropout: Real { bits: HALF_BITS },
            duration_predictor_num_flows: 4,
            duration_predictor_filter_channels: 256,
            prior_encoder_num_flows: 4,
            prior_encoder_num_wavenet_layers: 4,
            wavenet_kernel_size: 5,
            wavenet_dilation_rate: 1,
            wavenet_dropout: Real { bits: ZERO_BITS },
            speaking_rate: Real { bits: ONE_BITS },
            noise_scale: Real { bits: NOISE_SCALE_BITS },
            noise_scale_duration: Real { bits: FOUR_FIFTHS_BITS },
            sampling_rate: 16_000,
            pad_token_id: None,
        };
        proof {
            assert(r.upsample_rates.deep_view() =~= seq![8usize, 8usize, 2usize, 2usize]);
            assert(r.upsample_kernel_sizes.deep_view() =~= seq![16usize, 16usize, 4usize, 4usize]);
            assert(r.resblock_kernel_sizes.deep_view() =~= seq![3usize, 7usize, 11usize]);
            assert(r.resblock_dilation_sizes.deep_view() =~~= default_dilations());
        }
        r
    }
}

impl VitsConfig {
    /// The configuration that a document describes. Members that no field is named after are
    /// ignored, and so are those of the wrong kind.
    pub fn from_json(raw: &Json) -> (r: VitsConfig)
        ensures
            r.describes(raw@),
    {
        let mut cfg = VitsConfig::default();
        merge_field(raw, "vocab_size", &mut cfg.vocab_size);
        merge_field(raw, "hidden_size", &mut cfg.hidden_size);
        merge_field(raw, "num_hidden_layers", &mut cfg.num_hidden_layers);
        merge_field(raw, "num_attention_heads", &mut cfg.num_attention_heads);
        merge_field(raw, "window_size", &mut cfg.window_size);
        merge_field(raw, "use_bias", &mut cfg.use_bias);
        merge_field(raw, "ffn_dim", &mut cfg.ffn_dim);
        merge_field(raw, "ffn_kernel_size", &mut cfg.ffn_kernel_size);
        merge_field(raw, "flow_size", &mut cfg.flow_size);
        merge_field(raw, "spectrogram_bins", &mut cfg.spectrogram_bins);
        merge_field(raw, "hidden_act", &mut cfg.hidden_act);
        merge_field(raw, "hidden_dropout", &mut cfg.hidden_dropout);
        merge_field(raw, "attention_dropout", &mut cfg.attention_dropout);
        merge_field(raw, "activation_dropout", &mut cfg.activation_dropout);
        merge_field(raw, "layer_norm_eps", &mut cfg.layer_norm_eps);
        merge_field(raw, "use_stochastic_duration_prediction", &mut cfg.use_stochastic_duration_prediction);
        merge_field(raw, "num_speakers", &mut cfg.num_speakers);
        merge_field(raw, "speaker_embedding_size", &mut cfg.speaker_embedding_size);
        merge_field(raw, "upsample_initial_channel", &mut cfg.upsample_initial_channel);
        merge_field(raw, "upsample_rates", &mut cfg.upsample_rates);
        merge_field(raw, "upsample_kernel_sizes", &mut cfg.upsample_kernel_sizes);
        merge_field(raw, "resblock_kernel_sizes", &mut cfg.resblock_kernel_sizes);
        merge_field(raw, "resblock_dilation_sizes", &mut cfg.resblock_dilation_sizes);
        merge_field(raw, "leaky_relu_slope", &mut cfg.leaky_relu_slope);
        merge_field(raw, "depth_separable_channels", &mut cfg.depth_separable_channels);
        merge_field(raw, "depth_separable_num_layers", &mut cfg.depth_separable_num_layers);
        merge_field(raw, "duration_predictor_flow_bins", &mut cfg.duration_predictor_flow_bins);
        merge_field(raw, "duration_predictor_tail_bound", &mut cfg.duration_predictor_tail_bound);
        merge_field(raw, "duration_predictor_kernel_size", &mut cfg.duration_predictor_kernel_size);
        merge_field(raw, "duration_predictor_dropout", &mut cfg.duration_predictor_dropout);
        merge_field(raw, "duration_predictor_num_flows", &mut cfg.duration_predictor_num_flows);
        merge_field(raw, "duration_predictor_filter_channels", &mut cfg.duration_predictor_filter_channels);
        merge_field(raw, "prior_encoder_num_flows", &mut cfg.prior_encoder_num_flows);
        merge_field(raw, "prior_encoder_num_wavenet_layers", &mut cfg.prior_encoder_num_wavenet_layers);
        merge_field(raw, "wavenet_kernel_size", &mut cfg.wavenet_kernel_size);
        merge_field(raw, "wavenet_dilation_rate", &mut cfg.wavenet_dilation_rate);
        merge_field(raw, "wavenet_dropout", &mut cfg.wavenet_dropout);
        merge_field(raw, "speaking_rate", &mut cfg.speaking_rate);
        merge_field(raw, "noise_scale", &mut cfg.noise_scale);
        merge_field(raw, "noise_scale_duration", &mut cfg.noise_scale_duration);
        merge_field(raw, "sampling_rate", &mut cfg.sampling_rate);
        merge_field(raw, "pad_token_id", &mut cfg.pad_token_id);
        cfg
    }

    /// The configuration that the text of a `config.json` describes.
    pub fn from_pretrained(text: &str) -> (r: Result<VitsConfig, JsonError>)
        ensures
            match r {
                Ok(c) => json::text_contents(text@) is Some && c.describes(
                    json::text_contents(text@)->0,
                ),
                Err(e) => json::text_contents(text@) is None && e == JsonError::Syntax,
            },
    {
        match json::parse(text) {
            Ok(raw) => Ok(VitsConfig::from_json(&raw)),
            Err(e) => Err(e),
        }
    }
}

/// The members that a configuration is read from.
pub open spec fn member_names() -> Seq<Seq<char>> {
    seq![
        "vocab_size"@,
        "hidden_size"@,
        "num_hidden_layers"@,
        "num_attention_heads"@,
        "window_size"@,
        "use_bias"@,
        "ffn_dim"@,
        "ffn_kernel_size"@,
        "flow_size"@,
        "spectrogram_bins"@,
        "hidden_act"@,
        "hidden_dropout"@,
        "attention_dropout"@,
        "activation_dropout"@,
        "layer_norm_eps"@,
        "use_stochastic_duration_prediction"@,
        "num_speakers"@,
        "speaker_embedding_size"@,
        "upsample_initial_channel"@,
        "upsample_rates"@,
        "upsample_kernel_sizes"@,
        "resblock_kernel_sizes"@,
        "resblock_dilation_sizes"@,
        "leaky_relu_slope"@,
        "depth_separable_channels"@,
        "depth_separable_num_layers"@,
        "duration_predictor_flow_bins"@,
        "duration_predictor_tail_bound"@,
        "duration_predictor_kernel_size"@,
        "duration_predictor_dropout"@,
        "duration_predictor_num_flows"@,
        "duration_predictor_filter_channels"@,
        "prior_encoder_num_flows"@,
        "prior_encoder_num_wavenet_layers"@,
        "wavenet_kernel_size"@,
        "wavenet_dilation_rate"@,
        "wavenet_dropout"@,
        "speaking_rate"@,
        "noise_scale"@,
        "noise_scale_duration"@,
        "sampling_rate"@,
        "pad_token_id"@,
    ]
}

proof fn lemma_member_pushed(
    members: Seq<(Seq<char>, JsonView)>,
    extra: (Seq<char>, JsonView),
    name: Seq<char>,
    from: int,
)
    requires
        0 <= from <= members.len(),
        extra.0 != name,
    ensures
        json::member_from(members.push(extra), name, from) == json::member_from(
            members,
            name,
            from,
        ),
    decreases members.len() - from,
{
    if from < members.len() {
        lemma_member_pushed(members, extra, name, from + 1);
    } else {
        assert(json::member_from(members.push(extra), name, from + 1) is None);
    }
}

/// A member that no field is named after changes nothing.
pub proof fn lemma_other_members_ignored(
    c: VitsConfig,
    members: Seq<(Seq<char>, JsonView)>,
    key: Seq<char>,
    value: JsonView,
)
    requires
        !member_names().contains(key),
    ensures
        c.describes(JsonView::Object(members.push((key, value)))) <==> c.describes(
            JsonView::Object(members),
        ),
{
    let more = JsonView::Object(members.push((key, value)));
    assert forall|i: int| 0 <= i < member_names().len() implies json::member(
        more,
        #[trigger] member_names()[i],
    ) == json::member(JsonView::Object(members), member_names()[i]) by {
        assert(member_names().contains(member_names()[i]));
        lemma_member_pushed(members, (key, value), member_names()[i], 0);
    }
    assert(member_names()[0] == "vocab_size"@);
    assert(member_names()[1] == "hidden_size"@);
    assert(member_names()[2] == "num_hidden_layers"@);
    assert(member_names()[3] == "num_attention_heads"@);
    assert(member_names()[4] == "window_size"@);
    assert(member_names()[5] == "use_bias"@);
    assert(member_names()[6] == "ffn_dim"@);
    assert(member_names()[7] == "ffn_kernel_size"@);
    assert(member_names()[8] == "flow_size"@);
    assert(member_names()[9] == "spectrogram_bins"@);
    assert(member_names()[10] == "hidden_act"@);
    assert(member_names()[11] == "hidden_dropout"@);
    assert(member_names()[12] == "attention_dropout"@);
    assert(member_names()[13] == "activation_dropout"@);
    assert(member_names()[14] == "layer_norm_eps"@);
    assert(member_names()[15] == "use_stochastic_duration_prediction"@);
    assert(member_names()[16] == "num_speakers"@);
    assert(member_names()[17] == "speaker_embedding_size"@);
    assert(member_names()[18] == "upsample_initial_channel"@);
    assert(member_names()[19] == "upsample_rates"@);
    assert(member_names()[20] == "upsample_kernel_sizes"@);
    assert(member_names()[21] == "resblock_kernel_sizes"@);
    assert(member_names()[22] == "resblock_dilation_sizes"@);
    assert(member_names()[23] == "leaky_relu_slope"@);
    assert(member_names()[24] == "depth_separable_channels"@);
    assert(member_names()[25] == "depth_separable_num_layers"@);
    assert(member_names()[26] == "duration_predictor_flow_bins"@);
    assert(member_names()[27] == "duration_predictor_tail_bound"@);
    assert(member_names()[28] == "duration_predictor_kernel_size"@);
    assert(member_names()[29] == "duration_predictor_dropout"@);
    assert(member_names()[30] == "duration_predictor_num_flows"@);
    assert(member_names()[31] == "duration_predictor_filter_channels"@);
    assert(member_names()[32] == "prior_encoder_num_flows"@);
    assert(member_names()[33] == "prior_encoder_num_wavenet_layers"@);
    assert(member_names()[34] == "wavenet_kernel_size"@);
    assert(member_names()[35] == "wavenet_dilation_rate"@);
    assert(member_names()[36] == "wavenet_dropout"@);
    assert(member_names()[37] == "speaking_rate"@);
    assert(member_names()[38] == "noise_scale"@);
    assert(member_names()[39] == "noise_scale_duration"@);
    assert(member_names()[40] == "sampling_rate"@);
    assert(member_names()[41] == "pad_token_id"@);
}

/// A document without members describes the default configuration.
pub proof fn lemma_empty_document(c: VitsConfig, j: JsonView)
    requires
        j is Object ==> j->Object_0.len() == 0,
    ensures
        c.describes(j) <==> c.is_default(),
{
    assert(forall|key: Seq<char>| #[trigger] json::member(j, key) is None);
}

} // verus!
