//! One listening socket and the process that owns it.

use vstd::prelude::*;

verus! {

/// The transport a socket listens on.
#[derive(Clone, Copy, Debug, PartialEq, Eq, Structural)]
pub enum Protocol {
    Tcp,
    Udp,
    /// The listing named neither transport.
    Unknown,
}

impl Protocol {
    /// The text shown for the transport.
    pub open spec fn label_text(self) -> Seq<char> {
        match self {
            Protocol::Tcp => seq!['T', 'C', 'P'],
            Protocol::Udp => seq!['U', 'D', 'P'],
            Protocol::Unknown => seq!['?', '?', '?'],
        }
    }

    /// The text shown for the transport: `TCP`, `UDP` or `???`.
    pub fn label(&self) -> (text: &'static str)
        ensures
            text@ == self.label_text(),
    {
        proof {
            reveal_strlit("TCP");
            reveal_strlit("UDP");
            reveal_strlit("???");
        }
        match self {
            Protocol::Tcp => {
                assert("TCP"@ =~= seq!['T', 'C', 'P']);
                "TCP"
            },
            Protocol::Udp => {
                assert("UDP"@ =~= seq!['U', 'D', 'P']);
                "UDP"
            },
            Protocol::Unknown => {
                assert("???"@ =~= seq!['?', '?', '?']);
                "???"
            },
        }
    }
}

/// What a binding is, as plain mathematical values.
pub struct BindingView {
    pub pid: nat,
    pub port: nat,
    pub protocol: Protocol,
    pub name: Seq<char>,
}

impl BindingView {
    /// Whether the values can be those of a binding: a port that a socket can
    /// listen on, which leaves out 0, and a process identifier of 32 bits.
    pub open spec fn wf(self) -> bool {
        &&& 1 <= self.port <= u16::MAX
        &&& self.pid <= u32::MAX
    }
}

/// A process and the port it listens on. A binding does not change once it
/// is made, and its port is never 0.
#[derive(Debug, PartialEq, Eq)]
pub struct PortBinding {
    pid: u32,
    port: u16,
    protocol: Protocol,
    name: String,
}

impl View for PortBinding {
    type V = BindingView;

    closed spec fn view(&self) -> BindingView {
        BindingView {
            pid: self.pid as nat,
            port: self.port as nat,
            protocol: self.protocol,
            name: self.name@,
        }
    }
}

impl Clone for PortBinding {
    fn clone(&self) -> (copy: PortBinding)
        ensures
            copy@ == self@,
    {
        proof {
            use_type_invariant(self);
        }
        PortBinding {
            pid: self.pid,
            port: self.port,
            protocol: self.protocol,
            name: self.name.clone(),
        }
    }
}

impl PortBinding {
    #[verifier::type_invariant]
    spec fn well_formed(&self) -> bool {
        self.port != 0
    }

    /// The binding of the process `pid`, named `name`, to `port`; `None` for
    /// the port 0, on which nothing listens.
    pub fn new(pid: u32, port: u16, protocol: Protocol, name: String) -> (binding: Option<
        PortBinding,
    >)
        ensures
            binding is Some <==> port != 0,
            binding is Some ==> binding->0@ == (BindingView {
                pid: pid as nat,
                port: port as nat,
                protocol,
                name: name@,
            }),
    {
        if port == 0 {
            None
        } else {
            Some(PortBinding { pid, port, protocol, name })
        }
    }

    /// The identifier of the owning process.
    pub fn pid(&self) -> (pid: u32)
        ensures
            pid == self@.pid,
    {
        self.pid
    }

    /// The port, which is not 0.
    pub fn port(&self) -> (port: u16)
        ensures
            port == self@.port,
            port != 0,
            self@.wf(),
    {
        proof {
            use_type_invariant(self);
        }
        self.port
    }

    /// The transport.
    pub fn protocol(&self) -> (protocol: Protocol)
        ensures
            protocol == self@.protocol,
    {
        self.protocol
    }

    /// The display name of the process, as listed.
    pub fn name(&self) -> (name: &str)
        ensures
            name@ == self@.name,
    {
        self.name.as_str()
    }
}

/// The views of a list of bindings, in the same order.
pub open spec fn views(list: Seq<PortBinding>) -> Seq<BindingView> {
    list.map_values(|b: PortBinding| b@)
}

} // verus!
