//! The command line of a site build, as plain values.
use vstd::prelude::*;

verus! {

/// What a site build was asked to do.
pub struct Cli {
    pub command: Command,
}

/// The subcommands.
pub enum Command {
    /// Build the site and serve it on localhost.
    Serve(ServeArgs),
    /// Build the site.
    Build(BuildArgs),
}

/// Arguments of `serve`.
pub struct ServeArgs {
    /// The port to serve files on.
    pub port: u16,
    /// Clean the output directory before building.
    pub clean: bool,
}

/// Arguments of `build`.
pub struct BuildArgs {
    /// Clean the output directory before building.
    pub clean: bool,
}

impl Cli {
    /// Whether the output directory is cleaned before building.
    pub fn cleans_first(&self) -> (r: bool)
        ensures
            r == match self.command {
                Command::Serve(a) => a.clean,
                Command::Build(a) => a.clean,
            },
    {
        match &self.command {
            Command::Serve(a) => a.clean,
            Command::Build(a) => a.clean,
        }
    }

    /// The port to serve on, when serving.
    pub fn serve_port(&self) -> (r: Option<u16>)
        ensures
            r == match self.command {
                Command::Serve(a) => Some(a.port),
                Command::Build(_) => None::<u16>,
            },
    {
        match &self.command {
            Command::Serve(a) => Some(a.port),
            Command::Build(_) => None,
        }
    }
}

} // verus!
