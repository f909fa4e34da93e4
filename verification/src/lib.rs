//! A package repository database builder: it reads compressed package
//! archives from a pool directory, reconciles them with a previously
//! written index under the alpm version order, and emits the `desc`,
//! `depends` and `files` index trees.

pub mod alpm;
pub mod database;
pub mod desc;
pub mod digest;
pub mod elephant;
pub mod error;
pub mod filters;
pub mod numfmt;
pub mod package;
pub mod pkginfo;
pub mod roundtrip;
