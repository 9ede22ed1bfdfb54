//! Speech from text: the logic of a VITS voice.
//!
//! A voice is a network of layers whose weights a checkpoint holds. This library reads the
//! configuration and the vocabulary of a voice ([`config`], [`tokenizer`]), makes token identifiers
//! of a text, and builds the whole computation from identifiers to sound as a typed expression
//! ([`tensor`], [`nn`], [`model`]). Every operation is checked as the expression is built: an
//! expression that exists fits together. What the elements of a tensor are is left to whoever
//! evaluates it; what they are where arithmetic is exact, the modules of laws beside each part of
//! the model say, from the numbers that the checkpoint holds under its names.
//!
//! Numbers that are not integers appear as bit patterns or as formulas ([`tensor::scalar`]).

pub mod cli;
pub mod config;
pub mod config_laws;
pub mod download;
pub mod json;
pub mod model;
pub mod nn;
pub mod tensor;
pub mod text;
pub mod tokenizer;
pub mod wav;
