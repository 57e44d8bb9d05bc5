//! Comparison sorts over `Vec`, each in four modes: plain, timed, stepped
//! (with a trace of the states it went through) and both.
//!
//! Every sort asks that the element type be totally ordered (see
//! [`order::total_order`]) and states that what it returns is ascending and
//! holds the elements it was given. The one exception is bogosort, which
//! shuffles at random and may give up: it only keeps the elements.
//!
//! The traces are stated exactly. What a trace shows differs from one
//! algorithm to the next: most record the whole sequence after each exchange,
//! merge sort records each merged part, and selection sort records pairs of
//! what remains unsorted and what is sorted so far.

pub mod order;
pub mod integers;
pub mod sequence;
pub mod exchange;
pub mod clock;
pub mod algorithms;
pub mod laws;
pub mod bubble;
pub mod insertion;
pub mod merge;
pub mod selection;
pub mod prelude;

pub use bubble::bubble_sort;
pub use insertion::insertion_sort;
pub use merge::merge_sort;
pub use selection::selection_sort;
