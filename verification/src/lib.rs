//! Engine core of the hux input method: key events, session state, host key handling,
//! configuration bags, option state and its store, the sentence state kept in the context
//! with its automatic commits, the view sent to the platform, the learning key format and
//! corrections, the completion search over the code dictionary, and the pinyin index with
//! its syllable graph.

pub mod abi;
pub mod decode;
pub mod early_commit;
pub mod host;
pub mod interaction;
pub mod key;
pub mod key_table;
pub mod learning;
pub mod lexicon;
pub mod lookup;
pub mod options;
pub mod pinyin;
pub mod punct;
pub mod scheme;
pub mod session;
pub mod settings;
pub mod state;
pub mod store;
pub mod syllables;
pub mod tables;
pub mod text;
pub mod update;
