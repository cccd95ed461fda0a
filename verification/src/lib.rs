//! The decisions of a tool that copies the files of an FTP server to an upload
//! service: which files the server holds, which of them to upload, in which
//! order the steps of an upload run, and what the status lines, paths and log
//! names read. The network, the database and the terminal are left to the
//! program that drives these functions.

pub mod listing;
pub mod myftp;
pub mod output;
pub mod schedule;
pub mod sql;
pub mod text;
pub mod web;
