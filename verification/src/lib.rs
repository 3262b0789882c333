//! A frequency-ranked lexical index over a tokenized corpus, with sentence
//! context reconstruction and a three-pane browsing state machine.
//!
//! A corpus is a sequence of sentences, each a sequence of tokens with a
//! surface text, a lemma and a part-of-speech tag. The index records, for
//! every lemma and every surface form of it, the positions at which the form
//! occurs; punctuation is not indexed but keeps its place in the sentences.
//! Lemmas and forms are ranked by how often they occur, and ties keep the
//! order in which the corpus first showed them. A usage is shown as its
//! sentence, split around the occurrence. The browsing session walks from a
//! lemma to its forms and from a form to its usages.
//!
//! - [`token`]: tokens and the model of a corpus.
//! - [`text`]: the string operations that are assumed rather than proved.
//! - [`index`]: the two-level index and its lookups.
//! - [`builder`]: building and extending the index, and what holds of it.
//! - [`rank`]: rankings by count.
//! - [`context`]: the sentence around a token.
//! - [`lemmatizer`]: a corpus with its index, and the listings read from it.
//! - [`listing`]: the ranked listing with running counts and examples.
//! - [`navigation`]: panes, events, and a list with a selection.
//! - [`session`]: the browsing state machine and its invariants.
//! - [`browser`]: the browsing session.
//! - [`paragraph`]: a usage laid out for a pane of a given width.

pub mod browser;
pub mod builder;
pub mod context;
pub mod index;
pub mod lemmatizer;
pub mod listing;
pub mod navigation;
pub mod paragraph;
pub mod rank;
pub mod session;
pub mod text;
pub mod token;
