pub mod auth;
pub mod browser_auth;
pub mod browser_plan;
pub mod calendar;
pub mod cipher;
pub mod cli;
pub mod cookie_store;
pub mod cookies;
pub mod cron;
pub mod dom;
pub mod error;
pub mod extract;
pub mod health;
pub mod hit_auth;
pub mod hita_auth;
pub mod json;
pub mod ldap;
pub mod login_watch;
pub mod models;
pub mod page_url;
pub mod pager;
pub mod profile;
pub mod scripts;
pub mod text;
