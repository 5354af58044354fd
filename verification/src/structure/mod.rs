mod release;
mod support;
pub mod utils;

pub use release::{
    flag_count, lemma_locked_has_no_releases, lemma_release_any_iff_count,
    lemma_release_count_by_index, Release,
};
pub use support::{NodeLocks, SupportLocks};
