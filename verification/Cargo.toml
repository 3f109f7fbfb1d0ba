[package]
name = "datafusion_materialized_views"
version = "0.1.0"
edition = "2021"
publish = false

[dependencies]
arrow = "57"
arrow-schema = "57"
async-trait = "0.1"
dashmap = "6"
datafusion = { version = "52", default-features = false }
datafusion-common = "52"
datafusion-expr = "52"
datafusion-physical-plan = "52"
futures = "0.3"
itertools = "0.14"
log = "0.4"
object_store = "0.12"
url = "2"
