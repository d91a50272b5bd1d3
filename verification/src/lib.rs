//! A spiking neural network as a set of verified state machines.
//!
//! Spikes travel from a set of input sources through a chain of layers of
//! leaky integrate-and-fire neurons to an output monitor that counts them.
//! Every stage is a value whose per-tick transition is an ordinary function
//! with a contract. Channels, barriers and worker threads live outside this
//! crate: a worker is told what its last action led to and answers with the
//! next one (`worker`), and `NeuralNetwork::run` states what the pipeline
//! computes when its stages run in lock-step.
//!
//! Potentials, weights and the time constant are fixed-point integers. The
//! crate never multiplies two of them, so the unit is the caller's choice;
//! the membrane model that is handed to the network has to use the same one.
//!
//! Each stage comes in two files: its model in plain values, with the laws
//! that hold of it (`layer_state`, `network_state`, `input_text`), and the
//! code that is held to that model (`neural_layer`, `neural_network`,
//! `input_layer`).

pub mod errors;
pub mod spike;
pub mod synapse;
pub mod neuron;
pub mod layer_state;
pub mod neural_layer;
pub mod input;
pub mod input_text;
pub mod input_layer;
pub mod output;
pub mod network_state;
pub mod neural_network;
pub mod worker;
pub mod text;
