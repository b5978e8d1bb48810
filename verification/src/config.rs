//! The helper's settings.

use vstd::prelude::*;

verus! {

/// Which parts of the downstream setup the helper manages.
#[derive(Clone, Copy, Debug)]
pub struct Features {
    pub radvd: bool,
    pub dhcpv6: bool,
    pub ndproxy: bool,
    pub config_interface: bool,
    pub router: bool,
}

/// The helper's settings.
#[derive(Clone, Debug)]
pub struct Config {
    /// Length of the subnet handed to the downstream interface; a value above
    /// 128 means "the delegated length plus (value - 128)".
    pub subnet_prefix_length: u8,
    /// The interface on which the delegated prefix arrives.
    pub upper_interface: String,
    /// The interface that is configured with a subnet of it.
    pub next_interface: String,
    pub features: Features,
}

impl Config {
    /// The default settings: a /64 subnet, no interfaces named, every feature on.
    pub fn new() -> (c: Config)
        ensures
            c.subnet_prefix_length == 64,
            c.upper_interface@ == Seq::<char>::empty(),
            c.next_interface@ == Seq::<char>::empty(),
            c.features.radvd,
            c.features.dhcpv6,
            c.features.ndproxy,
            c.features.config_interface,
            c.features.router,
    {
        Config {
            subnet_prefix_length: 64,
            upper_interface: String::new(),
            next_interface: String::new(),
            features: Features {
                radvd: true,
                dhcpv6: true,
                ndproxy: true,
                config_interface: true,
                router: true,
            },
        }
    }

    /// A field-by-field copy.
    pub fn duplicate(&self) -> (c: Config)
        ensures
            c == *self,
    {
        Config {
            subnet_prefix_length: self.subnet_prefix_length,
            upper_interface: self.upper_interface.clone(),
            next_interface: self.next_interface.clone(),
            features: self.features,
        }
    }

    /// Takes over the settings that reading and decoding a configuration file
    /// produced: on success they replace the current ones and are returned, on
    /// failure the current settings stay and the error is returned.
    pub fn load(&mut self, loaded: Result<Config, String>) -> (r: Result<Config, String>)
        ensures
            r == loaded,
            loaded matches Ok(c) ==> *final(self) == c,
            loaded is Err ==> *final(self) == *old(self),
    {
        match loaded {
            Ok(config) => {
                *self = config.duplicate();
                Ok(config)
            },
            Err(e) => Err(e),
        }
    }
}

} // verus!
