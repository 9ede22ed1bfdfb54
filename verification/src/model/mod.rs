//! The model.

pub mod alignment;
pub mod alike;
pub mod attention;
pub mod attention_laws;
pub mod channels;
pub mod coupling;
pub mod coupling_laws;
pub mod curve;
pub mod decoder_laws;
pub mod duration_laws;
pub mod duration_predictor;
pub mod encoder_laws;
pub mod flow_laws;
pub mod flows;
pub mod frame_laws;
pub mod hifigan;
pub mod inverse;
pub mod knot_laws;
pub mod layer_laws;
pub mod lengths;
pub mod lines;
pub mod lines_laws;
pub mod name_laws;
pub mod no_mask;
pub mod numbers;
pub mod positions;
pub mod predictor_laws;
pub mod prior_laws;
pub mod rational;
pub mod score_laws;
pub mod separable;
pub mod separable_laws;
pub mod shapes;
pub mod sound_laws;
pub mod spline;
pub mod spline_laws;
pub mod tensor_ext;
pub mod text_encoder;
pub mod unused;
pub mod vits;
pub mod wavenet;
pub mod wavenet_laws;
