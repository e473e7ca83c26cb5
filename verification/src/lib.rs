//! Session recorder and audit log for AI coding agents.
use vstd::prelude::*;

pub mod calendar;
pub mod claim;
pub mod clock;
pub mod count;
pub mod digest;
pub mod digest_sums;
pub mod digest_text;
pub mod doc;
pub mod emit;
pub mod event;
pub mod fields;
pub mod flags;
pub mod hooks;
pub mod host;
pub mod init;
pub mod inventory;
pub mod inventory_facts;
pub mod json;
pub mod keys;
pub mod ledger;
pub mod liveness;
pub mod ls;
pub mod members;
pub mod messages;
pub mod named;
pub mod num;
pub mod outside;
pub mod order;
pub mod paths;
pub mod pick;
pub mod project;
pub mod receiver;
pub mod relative;
pub mod report;
pub mod report_facts;
pub mod rfc3339;
pub mod selection;
pub mod selector;
pub mod settings;
pub mod shell;
pub mod skill;
pub mod split;
pub mod statusline;
pub mod store;
pub mod table;
pub mod testcmd;
pub mod text;
pub mod timefmt;
pub mod timeline;
pub mod top;
pub mod transcript;
pub mod tui;
pub mod usage;
pub mod window;

verus! {

} // verus!
