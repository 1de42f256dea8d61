//! Middle-end of a small functional-language compiler: conversion of a
//! direct-style expression tree into continuation-passing style (CPS),
//! a normalizer for the resulting IR, a control-flow-graph builder over
//! the IR, and a generic worklist fixpoint dataflow engine instantiated
//! as an available-expressions analysis.

pub mod builtin_call;
pub mod available_expression;
pub mod cfg;
pub mod cps;
pub mod dataflow;
pub mod interp;
pub mod ir;
pub mod normalize;
