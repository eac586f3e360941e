//! Recognition of a game's reward-selection screen and valuation of what it offers.
//!
//! The pipeline reads a decoded bitmap, finds the reward banner, cuts it into
//! slots, and resolves the text recognised in each slot against an item
//! catalog. All arithmetic is exact: colours are 8-bit RGB, geometric
//! quantities are rationals over fixed denominators, prices are thousandths of
//! a platinum and probabilities are integer weights over a stated scale.
//! Two comparisons take weights that no such number holds, a cosine and a
//! sum of inverse fourth powers: they are asked of the caller's `Weigher`,
//! and what is made of the answers is specified here.

pub mod agreement;
pub mod arith;
pub mod bitmap;
pub mod catalog;
pub mod color;
pub mod config;
pub mod database;
pub mod detector;
pub mod locator;
pub mod ranking;
pub mod recognition;

pub mod segmenter;
pub mod selection;
pub mod statistics;
pub mod text;
pub mod theme;
pub mod trigger;
pub mod weighing;
pub mod wfinfo_data;
