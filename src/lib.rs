pub mod gossip;
pub mod node;
pub mod node_membership;
pub mod ring;
