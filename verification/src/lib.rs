//! Parsing, validation and serialization of ANSI X12 EDI documents.
//!
//! An X12 document is a flat, delimiter-separated text format. The three
//! delimiter characters are self-described at fixed offsets of the leading
//! ISA segment. This crate tokenizes the text, folds the token stream into a
//! four-level tree (interchange, functional group, transaction, segment),
//! cross-checks the closing envelope segments against their openers, and can
//! re-emit the tree as X12 text.

pub mod edi_document;
pub mod edi_parse_error;
pub mod functional_group;
pub mod functional_group_header;
pub mod generic_segment;
pub mod interchange_control;
pub mod laws;
pub mod round_trip;
pub mod segment;
pub mod text;
pub mod transaction;
pub mod tokenizer;

pub use edi_document::parse;
pub use edi_document::loose_parse;
pub use edi_document::parse_with_names;
pub use edi_document::EdiDocument;
pub use edi_parse_error::EdiParseError;
pub use edi_parse_error::EdiParseErrorKind;
pub use edi_parse_error::try_option;
pub use tokenizer::tokenize;
pub use functional_group::FunctionalGroup;
pub use functional_group_header::FunctionalGroupHeader;
pub use segment::Segment;
pub use generic_segment::GenericSegment;
pub use interchange_control::InterchangeControl;
pub use transaction::Transaction;
pub use transaction::TransactionNames;
pub use transaction::NameEntry;
