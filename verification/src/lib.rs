//! Decision logic of a transparent proxy: the domain list that picks which
//! DNS names are proxied, the inspection of packets that arrive on the tun
//! device, the bookkeeping of endpoints that the device has opened sockets
//! for, the choice of wakers for borrowed sockets, the schedule that keeps an
//! ipset entry alive, the choice of TLS certificate verifier, and the
//! start-up plan.

pub mod domain;
pub mod keepalive;
pub mod packet;
pub mod registry;
pub mod server_name;
pub mod startup;
pub mod tls;
pub mod waker;
