//! Query rewriting.
pub mod answer_laws;
pub mod class;
pub mod column_laws;
pub mod filter_laws;
pub mod matching_laws;
pub mod normal_form;
pub mod plan_laws;
pub mod predicate;
pub mod readiness;
pub mod semantics;
pub mod soundness;
pub mod table_laws;
