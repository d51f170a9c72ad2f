//! Streaming multi-format decoder and batched ingestion pipeline for
//! word-embedding dumps.
//!
//! A byte stream in one of four text formats (FastText, GloVe, Word2Vec,
//! Gensim-TSV) is split into framed pieces, tokenized into [`wordvector::Record`]
//! values, and loaded by [`converter::Converter`] into a relational store as
//! normalized (word, kind, position, weight) rows, while a decoupled progress
//! signal observes the number of bytes consumed.

pub mod converter;
pub mod db;
pub mod io;
pub mod progressbar;
pub mod wordvector;
