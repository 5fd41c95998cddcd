//! Generators of HTTP request lines for property tests.
//!
//! Every generator hands back a structured value together with the exact text
//! it was rendered as, so that a parser under test can be fed the text and its
//! output compared with the value field by field. Nothing is parsed here:
//! values and texts are derived from the same random choices.
//!
//! Each production of the grammar comes as a pair of functions. One takes the
//! choices as plain values and builds value and text from them; its contract
//! says exactly what it returns. The other draws the choices from a random
//! number generator and calls the first; its contract says what holds of
//! every outcome, above all that the text stands for the value.
//!
//! The generators rest on two engines. [`request_line::character_class`]
//! splits the space of Unicode scalar values into the safe characters of a URL
//! component and the ranges of all others, which [`request_line::percent`]
//! writes as escape sequences. [`request_line::target::components::host::ip_v6`]
//! writes one IP v6 address in any of the layouts that its text may have.

pub mod request_line;
