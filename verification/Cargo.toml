[package]
name = "brb_node_qp2p"
version = "0.1.0"
edition = "2021"
publish = false

[dependencies]
brb = "=1.0.10"
brb_membership = "=1.0.10"
brb_dt_orswot = "=1.0.9"
crdts = "=5.1.0"
ed25519-dalek = "=1.0.1"
qp2p = "=0.10.1"
tokio = { version = "=1.54.1", features = ["rt-multi-thread", "macros", "sync", "time"] }
bincode = "=1.3.3"
serde = { version = "=1.0.229", features = ["derive"] }
bytes = "=1.12.1"
cmdr = "=0.3.12"
log = "=0.4.35"
env_logger = "=0.11.11"
