//! Error taxonomy: one class per failing subsystem, each with a process
//! exit code, a tag, and a human-readable message.
use vstd::prelude::*;

verus! {

/// The failing subsystem of a run.
#[derive(Debug, Clone, Copy, PartialEq, Eq, Structural)]
pub enum ErrorClass {
    Input,
    Dns,
    Tcp,
    Tls,
    Http,
    Timeout,
    Other,
}

impl ErrorClass {
    /// Process exit code of the class; success is 0, every class is nonzero.
    pub fn exit_code(&self) -> (r: i32)
        ensures
            r == self.exit_code_spec(),
    {
        match self {
            ErrorClass::Input => 2,
            ErrorClass::Dns => 3,
            ErrorClass::Tcp => 4,
            ErrorClass::Tls => 5,
            ErrorClass::Http => 6,
            ErrorClass::Timeout => 7,
            ErrorClass::Other => 1,
        }
    }

    pub open spec fn exit_code_spec(self) -> int {
        match self {
            ErrorClass::Input => 2,
            ErrorClass::Dns => 3,
            ErrorClass::Tcp => 4,
            ErrorClass::Tls => 5,
            ErrorClass::Http => 6,
            ErrorClass::Timeout => 7,
            ErrorClass::Other => 1,
        }
    }

    pub open spec fn tag_spec(self) -> Seq<char> {
        match self {
            ErrorClass::Input => "INPUT"@,
            ErrorClass::Dns => "DNS"@,
            ErrorClass::Tcp => "TCP"@,
            ErrorClass::Tls => "TLS"@,
            ErrorClass::Http => "HTTP"@,
            ErrorClass::Timeout => "TIMEOUT"@,
            ErrorClass::Other => "ERROR"@,
        }
    }

    /// Short label of the class, as printed in error lines.
    pub fn tag(&self) -> (r: &'static str)
        ensures
            r@ == self.tag_spec(),
    {
        match self {
            ErrorClass::Input => "INPUT",
            ErrorClass::Dns => "DNS",
            ErrorClass::Tcp => "TCP",
            ErrorClass::Tls => "TLS",
            ErrorClass::Http => "HTTP",
            ErrorClass::Timeout => "TIMEOUT",
            ErrorClass::Other => "ERROR",
        }
    }
}

/// An error of one subsystem with its message.
#[derive(Debug, Clone)]
pub struct UdocError {
    pub class: ErrorClass,
    pub message: String,
}

impl UdocError {
    pub fn new(class: ErrorClass, message: String) -> (r: Self)
        ensures
            r.class == class && r.message@ == message@,
    {
        UdocError { class, message }
    }

    pub fn input(msg: String) -> (r: Self)
        ensures
            r.class == ErrorClass::Input && r.message@ == msg@,
    {
        Self::new(ErrorClass::Input, msg)
    }

    pub fn dns(msg: String) -> (r: Self)
        ensures
            r.class == ErrorClass::Dns && r.message@ == msg@,
    {
        Self::new(ErrorClass::Dns, msg)
    }

    pub fn tcp(msg: String) -> (r: Self)
        ensures
            r.class == ErrorClass::Tcp && r.message@ == msg@,
    {
        Self::new(ErrorClass::Tcp, msg)
    }

    pub fn tls(msg: String) -> (r: Self)
        ensures
            r.class == ErrorClass::Tls && r.message@ == msg@,
    {
        Self::new(ErrorClass::Tls, msg)
    }

    pub fn http(msg: String) -> (r: Self)
        ensures
            r.class == ErrorClass::Http && r.message@ == msg@,
    {
        Self::new(ErrorClass::Http, msg)
    }

    pub fn timeout(msg: String) -> (r: Self)
        ensures
            r.class == ErrorClass::Timeout && r.message@ == msg@,
    {
        Self::new(ErrorClass::Timeout, msg)
    }

    pub fn other(msg: String) -> (r: Self)
        ensures
            r.class == ErrorClass::Other && r.message@ == msg@,
    {
        Self::new(ErrorClass::Other, msg)
    }

    /// The single line printed to stderr for this error.
    pub open spec fn stderr_spec(self) -> Seq<char> {
        "error["@ + self.class.tag_spec() + "]: "@ + self.message@
    }

    pub fn format_stderr(&self) -> (r: String)
        ensures
            r@ == self.stderr_spec(),
    {
        let mut out = String::new();
        out.append("error[");
        out.append(self.class.tag());
        out.append("]: ");
        out.append(self.message.as_str());
        out
    }
}

} // verus!
