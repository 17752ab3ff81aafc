//! Extraction of clinical facts from CDA-style XML documents, and statistics
//! over the extracted documents.
//!
//! A document is read event by event ([`walker`]); the rules of [`rules`] and
//! [`mining`] turn attributes and text into the patient, the diagnoses and
//! the medications of a [`CDADocument`]; [`postprocess`] finishes it. A
//! [`CDAParser`] keeps the documents, and [`stats`] counts over them.

pub mod invariants;
pub mod laws;
pub mod mining;
pub mod model;
pub mod order;
pub mod parser;
pub mod patterns;
pub mod postprocess;
pub mod rules;
pub mod stats;
pub mod tables;
pub mod text;
pub mod walker;
pub mod xml;

pub use crate::model::CDADocument;
pub use crate::model::Diagnosis;
pub use crate::model::DiagnosisCount;
pub use crate::model::GenderCount;
pub use crate::model::Medication;
pub use crate::model::MedicationCount;
pub use crate::model::Patient;
pub use crate::model::Statistics;
pub use crate::parser::CDAParser;
