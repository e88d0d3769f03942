//! A verified library for a single-site crawl-and-audit tool: URL
//! normalization and host gating, per-page SEO analysis, redirect-chain
//! probing, fetch-pool scheduling, the crawl controller's decisions, the
//! dashboard state model, and the exported dataset's encoding.

pub mod clock;
pub mod controller;
pub mod export;
pub mod html;
pub mod issues;
pub mod jsonio;
pub mod page;
pub mod pool;
pub mod probe;
pub mod state;
pub mod strutil;
pub mod types;
pub mod ui;
pub mod urlnorm;
pub mod webdriver;
