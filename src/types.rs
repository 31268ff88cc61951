use vstd::prelude::*;

verus! {

/// The kind of proxy that a directive names.
#[derive(Debug, Clone, Copy, PartialEq, Eq, Hash, Structural)]
pub enum ProxyType {
    Proxy,
    Socks,
    Http,
    Https,
    Socks4,
    Socks5,
}

/// One routing instruction of a decoded proxy specification.
#[derive(Debug, Clone, PartialEq, Eq, Hash)]
pub enum ProxyEntry {
    Direct,
    Proxied { ty: ProxyType, host: String, port: String },
}

/// Mathematical model of a `ProxyEntry`: host and port as character sequences.
pub enum EntryModel {
    Direct,
    Proxied { ty: ProxyType, host: Seq<char>, port: Seq<char> },
}

impl View for ProxyEntry {
    type V = EntryModel;

    open spec fn view(&self) -> EntryModel {
        match self {
            ProxyEntry::Direct => EntryModel::Direct,
            ProxyEntry::Proxied { ty, host, port } => EntryModel::Proxied {
                ty: *ty,
                host: host@,
                port: port@,
            },
        }
    }
}

/// The models of a sequence of entries, in order.
pub open spec fn entries_view(v: Seq<ProxyEntry>) -> Seq<EntryModel> {
    v.map_values(|e: ProxyEntry| e@)
}

/// Errors of script evaluation and of proxy-directive decoding.
#[derive(Debug)]
pub enum Error {
    /// The script failed to evaluate or run, including failures raised by a host function.
    JsError(String),
    /// The proxy specification returned by the script breaks the directive grammar.
    MalformedProxyEntry(String),
    /// The script's entry point returned something other than a string.
    InvalidPacReturn,
    /// The request URL has no host component.
    NoHost,
}

} // verus!
