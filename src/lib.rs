//! Renames television episode files: reads season, episode, title and
//! extension out of noisy release file names, cleans titles, guesses the show
//! and season of a batch, and orders the episodes of a batch.

pub mod chars;
pub mod parsers;
pub mod cleaner;
pub mod episode;
pub mod guesser;
pub mod episode_factory;
pub mod exclude_rules;
