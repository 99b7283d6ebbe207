//! The web project's configuration, and which backend it serves from.
use vstd::prelude::*;
use crate::text::{chars_of, string_of};

verus! {

/// How the web project is served.
#[derive(Clone, Copy, Debug, PartialEq, Eq, Structural)]
pub enum Mode {
    /// Built files are served from the target directory.
    Production,
    /// Requests are forwarded to the project's development server.
    Development,
}

impl Mode {
    /// The mode that a build assumes: development for a build with debug
    /// assertions, production otherwise.
    pub fn assumed(debug_assertions: bool) -> (r: Mode)
        ensures
            r == (if debug_assertions { Mode::Development } else { Mode::Production }),
    {
        if debug_assertions {
            Mode::Development
        } else {
            Mode::Production
        }
    }
}

/// Where a web project lives and how it is run.
pub struct Config {
    /// Whether pages are built up front or served by the development server.
    pub mode: Mode,
    /// The package manager that runs the project, e.g. pnpm, npm or yarn.
    pub command: String,
    /// The subcommand of `command` that installs dependencies.
    pub install_command: String,
    /// The directory that the command runs in.
    pub root: String,
    /// The directory of the built files.
    pub target: String,
    /// The port of the development server.
    pub dev_server_port: u32,
}

/// `base` with the relative path `child` below it, as `Path::join` puts them
/// together: a `/` between them unless `base` is empty or ends in one.
pub open spec fn join_path(base: Seq<char>, child: Seq<char>) -> Seq<char> {
    if base.len() == 0 || base.last() == '/' {
        base + child
    } else {
        base + seq!['/'] + child
    }
}

fn join_relative(base: &str, child: &str) -> (r: String)
    ensures
        r@ == join_path(base@, child@),
{
    let mut v = chars_of(base);
    let n = v.len();
    if n > 0 && v[n - 1] != '/' {
        v.push('/');
    }
    let c = chars_of(child);
    let ghost start = v@;
    let mut i: usize = 0;
    while i < c.len()
        invariant
            i <= c@.len(),
            v@ == start + c@.take(i as int),
        decreases c@.len() - i,
    {
        v.push(c[i]);
        i = i + 1;
        assert(v@ =~= start + c@.take(i as int));
    }
    assert(c@.take(c@.len() as int) =~= c@);
    string_of(v)
}

impl Config {
    /// A project run with pnpm from `root`, built into `root/dist`, with its
    /// development server on port 3000.
    pub fn new_pnpm(mode: Mode, root: String) -> (r: Config)
        ensures
            r.mode == mode,
            r.command@ == "pnpm"@,
            r.install_command@ == "install"@,
            r.root@ == root@,
            r.target@ == join_path(root@, "dist"@),
            r.dev_server_port == 3000,
    {
        let target = join_relative(root.as_str(), "dist");
        Config {
            mode,
            command: string_of(chars_of("pnpm")),
            install_command: string_of(chars_of("install")),
            target,
            root,
            dev_server_port: 3000,
        }
    }

    /// Sets the directory of the built files, leaving the root unchanged.
    pub fn root(self, value: String) -> (r: Config)
        ensures
            r.target@ == value@,
            r.mode == self.mode,
            r.command@ == self.command@,
            r.install_command@ == self.install_command@,
            r.root@ == self.root@,
            r.dev_server_port == self.dev_server_port,
    {
        Config { target: value, ..self }
    }

    /// Sets the directory of the built files.
    pub fn target(self, value: String) -> (r: Config)
        ensures
            r.target@ == value@,
            r.mode == self.mode,
            r.command@ == self.command@,
            r.install_command@ == self.install_command@,
            r.root@ == self.root@,
            r.dev_server_port == self.dev_server_port,
    {
        Config { target: value, ..self }
    }

    /// Sets the port of the development server.
    pub fn dev_server_port(self, value: u32) -> (r: Config)
        ensures
            r.dev_server_port == value,
            r.mode == self.mode,
            r.command@ == self.command@,
            r.install_command@ == self.install_command@,
            r.root@ == self.root@,
            r.target@ == self.target@,
    {
        Config { dev_server_port: value, ..self }
    }

    /// Where requests are served from under this configuration.
    pub fn backend(&self) -> (r: Backend)
        ensures
            self.mode == Mode::Development ==> (r matches Backend::Proxy(url) && url@
                == "http://localhost:"@ + decimal(self.dev_server_port as nat)),
            self.mode == Mode::Production ==> (r matches Backend::Directory(dir) && dir@
                == self.target@),
    {
        match self.mode {
            Mode::Development => {
                let mut v = chars_of("http://localhost:");
                push_decimal(&mut v, self.dev_server_port);
                Backend::Proxy(string_of(v))
            },
            Mode::Production => Backend::Directory(string_of(chars_of(self.target.as_str()))),
        }
    }
}

/// Where requests are served from.
pub enum Backend {
    /// Forwarded to the development server at this URL.
    Proxy(String),
    /// Answered with the files under this directory.
    Directory(String),
}

/// The digit that stands for `d`.
pub open spec fn digit_char(d: nat) -> char {
    ((d + 48) as u8) as char
}

/// `n` in decimal, without leading zeros.
pub open spec fn decimal(n: nat) -> Seq<char>
    decreases n,
{
    if n < 10 {
        seq![digit_char(n)]
    } else {
        decimal(n / 10).push(digit_char(n % 10))
    }
}

fn push_decimal(out: &mut Vec<char>, n: u32)
    ensures
        final(out)@ == old(out)@ + decimal(n as nat),
    decreases n,
{
    if n >= 10 {
        push_decimal(out, n / 10);
    }
    let d: u32 = n % 10;
    out.push(((d + 48) as u8) as char);
    assert(out@ =~= old(out)@ + decimal(n as nat));
}

} // verus!
