//! A helper for a five-letter-word deduction game: it keeps the pool of
//! still-possible answers, ranks them by per-position letter frequency, and
//! narrows the pool with the per-letter feedback gathered after each guess.

pub mod freqs;
pub mod guesser;
pub mod hints;
pub mod words;
