//! Service bindings and the descriptors that name them.
//!
//! A descriptor is resolved by its scheme: `fd://` names an inherited
//! descriptor, `unix://` a socket file, `npipe://` a named pipe, `tcp://` a
//! socket address or a host and port, and a text that begins with two
//! backslashes is a pipe path as it stands. Resolution reads nothing from the
//! process: what the environment says of inherited descriptors comes in as an
//! [`Activation`], and where the platform or a name service has to be asked
//! the [`Resolution`] says so and the answer is handed to
//! [`Binding::from_activation`] or [`Binding::from_lookup`].
use crate::address::{socket_literal, SocketAddress};
use crate::error::{AddressError, Error};
use crate::literal::{lemma_literal_read, literal};
use crate::number::{
    integer_i32, integer_u16, integer_usize, parse_i32, parse_usize, read_integer, NumberError,
};
use crate::text::{
    begins_with, chars_of, fields, find_first, find_last, first_match, last_index_of, part_of,
    split, strip, strip_prefix, text_of,
};
use vstd::prelude::*;

verus! {

/// The number of the first inherited descriptor: the one behind the three
/// standard streams.
pub const SD_LISTEN_FDS_START: i32 = 3;

/// Service binding.
///
/// Indicates which mechanism should the service take to bind its listener
/// to.
#[derive(Debug, PartialEq, Eq, Clone)]
pub enum Binding {
    /// The service should be bound to this explicit, opened file descriptor.
    /// This mechanism is used by the socket activation.
    FileDescriptor(i32),
    /// The service should be bound to a Unix domain socket file under
    /// specified path.
    FilePath(String),
    /// The service should be bound to the first TCP socket that succeeds the
    /// binding.
    Sockets(Vec<SocketAddress>),
    /// Windows Named Pipe.
    NamedPipe(String),
}

/// A binding as a mathematical value.
pub enum BindingView {
    FileDescriptor(i32),
    FilePath(Seq<char>),
    Sockets(Seq<SocketAddress>),
    NamedPipe(Seq<char>),
}

impl View for Binding {
    type V = BindingView;

    open spec fn view(&self) -> BindingView {
        match self {
            Binding::FileDescriptor(fd) => BindingView::FileDescriptor(*fd),
            Binding::FilePath(path) => BindingView::FilePath(path@),
            Binding::Sockets(addresses) => BindingView::Sockets(addresses@),
            Binding::NamedPipe(path) => BindingView::NamedPipe(path@),
        }
    }
}

/// What the process was told of the descriptors it inherited.
#[derive(Debug, PartialEq, Eq, Clone)]
pub struct Activation {
    /// The value of `LISTEN_FDS`, where it is set: the count of descriptors.
    pub count: Option<String>,
    /// The value of `LISTEN_FDNAMES`, where it is set: their names, parted by
    /// colons.
    pub names: Option<String>,
    /// Whether the platform keeps the names itself and is asked for them.
    pub service: bool,
}

/// An activation as a mathematical value.
pub struct ActivationView {
    pub count: Option<Seq<char>>,
    pub names: Option<Seq<char>>,
    pub service: bool,
}

impl View for Activation {
    type V = ActivationView;

    open spec fn view(&self) -> ActivationView {
        ActivationView {
            count: match self.count {
                Some(c) => Some(c@),
                None => None,
            },
            names: match self.names {
                Some(n) => Some(n@),
                None => None,
            },
            service: self.service,
        }
    }
}

/// What a descriptor resolves to.
#[derive(Debug, PartialEq, Eq, Clone)]
pub enum Resolution {
    /// The binding is known.
    Bound(Binding),
    /// The binding is made of the addresses of `host`, each with `port`.
    Lookup { host: String, port: u16 },
    /// The binding is the descriptor that the platform keeps under `name`.
    Activate { name: String },
}

/// A resolution as a mathematical value.
pub enum ResolutionView {
    Bound(BindingView),
    Lookup { host: Seq<char>, port: u16 },
    Activate { name: Seq<char> },
}

impl View for Resolution {
    type V = ResolutionView;

    open spec fn view(&self) -> ResolutionView {
        match self {
            Resolution::Bound(binding) => ResolutionView::Bound(binding@),
            Resolution::Lookup { host, port } => ResolutionView::Lookup { host: host@, port: *port },
            Resolution::Activate { name } => ResolutionView::Activate { name: name@ },
        }
    }
}

/// The pipe path that `rest` names behind `npipe://`: `rest` itself, with
/// each slash turned into a backslash, where it begins with a dot, a slash or
/// a backslash; else the pipe of that name on this machine.
pub open spec fn pipe_path(rest: Seq<char>) -> Seq<char> {
    if rest.len() > 0 && (rest[0] == '.' || rest[0] == '/' || rest[0] == '\\') {
        rest.map_values(
            |c: char|
                if c == '/' {
                    '\\'
                } else {
                    c
                },
        )
    } else {
        "\\\\.\\pipe\\"@ + rest
    }
}

/// The descriptor that the environment alone announces: there is one if and
/// only if the announced count is 1.
pub open spec fn sole_descriptor(a: ActivationView) -> Result<ResolutionView, Error> {
    match a.count {
        None => Err(Error::DescriptorsMissing),
        Some(count) => match integer_i32(count) {
            Err(e) => Err(Error::BadDescriptor(e)),
            Ok(n) => if n == 1 {
                Ok(ResolutionView::Bound(BindingView::FileDescriptor(SD_LISTEN_FDS_START)))
            } else {
                Err(Error::DescriptorOutOfRange(n as i32))
            },
        },
    }
}

/// The descriptor that the environment announces under `name`: the first of
/// the announced names that equals `name` gives its position, which has to
/// lie below the announced count.
pub open spec fn named_descriptor(name: Seq<char>, a: ActivationView) -> Result<
    ResolutionView,
    Error,
> {
    match (a.names, a.count) {
        (Some(names), Some(count)) => match integer_usize(count) {
            Err(e) => Err(Error::BadDescriptor(e)),
            Ok(n) => match first_match(fields(names, ':'), name) {
                Some(i) if i < n => Ok(
                    ResolutionView::Bound(
                        BindingView::FileDescriptor((SD_LISTEN_FDS_START + i) as i32),
                    ),
                ),
                _ => Err(Error::DescriptorsMissing),
            },
        },
        _ => Err(Error::DescriptorsMissing),
    }
}

/// What `name` resolves to behind `fd://`.
pub open spec fn descriptor(name: Seq<char>, a: ActivationView) -> Result<ResolutionView, Error> {
    if name.len() == 0 {
        sole_descriptor(a)
    } else {
        match integer_i32(name) {
            Ok(fd) => Ok(ResolutionView::Bound(BindingView::FileDescriptor(fd as i32))),
            Err(_) => if a.service {
                Ok(ResolutionView::Activate { name })
            } else {
                named_descriptor(name, a)
            },
        }
    }
}

/// What `rest` resolves to behind `tcp://`: the address that it denotes, or
/// the host before its last colon with the port behind it.
pub open spec fn socket(rest: Seq<char>) -> Result<ResolutionView, Error> {
    match socket_literal(rest) {
        Some(address) => Ok(ResolutionView::Bound(BindingView::Sockets(seq![address]))),
        None => match last_index_of(rest, ':') {
            None => Err(Error::BadAddress(AddressError::MissingPort)),
            Some(i) => match integer_u16(rest.skip(i + 1)) {
                Err(_) => Err(Error::BadAddress(AddressError::InvalidPort)),
                Ok(port) => Ok(ResolutionView::Lookup { host: rest.take(i), port: port as u16 }),
            },
        },
    }
}

/// What the descriptor `s` resolves to. The first scheme that `s` begins
/// with decides, and no other is looked at.
pub open spec fn resolution(s: Seq<char>, a: ActivationView) -> Result<ResolutionView, Error> {
    if let Some(name) = strip(s, "fd://"@) {
        descriptor(name, a)
    } else if let Some(path) = strip(s, "unix://"@) {
        Ok(ResolutionView::Bound(BindingView::FilePath(path)))
    } else if let Some(rest) = strip(s, "npipe://"@) {
        Ok(ResolutionView::Bound(BindingView::NamedPipe(pipe_path(rest))))
    } else if let Some(rest) = strip(s, "tcp://"@) {
        socket(rest)
    } else if strip(s, "\\\\"@) is Some {
        Ok(ResolutionView::Bound(BindingView::NamedPipe(s)))
    } else {
        Err(Error::UnsupportedScheme)
    }
}

/// The count `n` as an `i32`, reduced into its range as a cast reduces it.
pub open spec fn count_as_i32(n: nat) -> i32 {
    let low = n % 0x1_0000_0000;
    if low < 0x8000_0000 {
        low as i32
    } else {
        (low - 0x1_0000_0000) as i32
    }
}

/// The binding that the platform's answer to an activation by name gives:
/// exactly one descriptor is that binding, any other count is out of range,
/// and no answer means that no descriptor is there.
pub open spec fn activated(answer: Option<Seq<i32>>) -> Result<BindingView, Error> {
    match answer {
        None => Err(Error::DescriptorsMissing),
        Some(fds) => if fds.len() == 1 {
            Ok(BindingView::FileDescriptor(fds[0]))
        } else {
            Err(Error::DescriptorOutOfRange(count_as_i32(fds.len())))
        },
    }
}

/// The binding that the answer of a name service gives: the addresses as
/// they came, in their order, or `BadAddress` where the host did not resolve.
pub open spec fn looked_up(answer: Option<Seq<SocketAddress>>) -> Result<BindingView, Error> {
    match answer {
        None => Err(Error::BadAddress(AddressError::Unresolved)),
        Some(addresses) => Ok(BindingView::Sockets(addresses)),
    }
}

/// `res` is the outcome `expected`: the same error, or a binding with that
/// view.
pub open spec fn binds(res: Result<Binding, Error>, expected: Result<BindingView, Error>) -> bool {
    match res {
        Ok(b) => expected == Ok::<BindingView, Error>(b@),
        Err(e) => expected == Err::<BindingView, Error>(e),
    }
}

/// Whether every position among the announced names has a descriptor number.
pub open spec fn names_fit(a: ActivationView) -> bool {
    match a.names {
        Some(names) => names.len() <= i32::MAX - SD_LISTEN_FDS_START,
        None => true,
    }
}

/// `res` is the outcome `expected`: the same error, or a resolution with
/// that view.
pub open spec fn resolves(
    res: Result<Resolution, Error>,
    expected: Result<ResolutionView, Error>,
) -> bool {
    match res {
        Ok(r) => expected == Ok::<ResolutionView, Error>(r@),
        Err(e) => expected == Err::<ResolutionView, Error>(e),
    }
}

impl Binding {
    /// Resolves the descriptor `s` with what `activation` says of inherited
    /// descriptors. Descriptor numbers are `i32`, so the announced names must
    /// be short enough for each position among them to have one.
    pub fn resolve(s: &str, activation: &Activation) -> (res: Result<Resolution, Error>)
        requires
            names_fit(activation@),
        ensures
            resolves(res, resolution(s@, activation@)),
    {
        let chars = chars_of(s);
        if let Some(n) = strip_prefix(&chars, "fd://") {
            resolve_descriptor(&chars, n, activation)
        } else if let Some(n) = strip_prefix(&chars, "unix://") {
            let path = text_of(&chars, n, chars.len());
            Ok(Resolution::Bound(Binding::FilePath(path)))
        } else if let Some(n) = strip_prefix(&chars, "npipe://") {
            Ok(Resolution::Bound(Binding::NamedPipe(resolve_pipe(&chars, n))))
        } else if let Some(n) = strip_prefix(&chars, "tcp://") {
            resolve_socket(&chars, n)
        } else if let Some(_) = strip_prefix(&chars, "\\\\") {
            let path = text_of(&chars, 0, chars.len());
            proof {
                assert(chars@.subrange(0, chars.len() as int) == chars@);
            }
            Ok(Resolution::Bound(Binding::NamedPipe(path)))
        } else {
            Err(Error::UnsupportedScheme)
        }
    }

    /// Makes the binding out of the platform's answer to an activation by
    /// name: the descriptors that it keeps under the name, or `None` where
    /// it failed.
    pub fn from_activation(answer: Option<Vec<i32>>) -> (res: Result<Binding, Error>)
        ensures
            binds(
                res,
                activated(
                    match answer {
                        Some(fds) => Some(fds@),
                        None => None,
                    },
                ),
            ),
    {
        match answer {
            None => Err(Error::DescriptorsMissing),
            Some(fds) => {
                if fds.len() == 1 {
                    Ok(Binding::FileDescriptor(fds[0]))
                } else {
                    let low: u64 = fds.len() as u64 % 0x1_0000_0000;
                    let count: i32 = if low < 0x8000_0000 {
                        low as i32
                    } else {
                        (low as i64 - 0x1_0000_0000) as i32
                    };
                    Err(Error::DescriptorOutOfRange(count))
                }
            },
        }
    }

    /// Makes the binding out of the answer of a name service: the addresses
    /// of the host, or `None` where it did not resolve.
    pub fn from_lookup(answer: Option<Vec<SocketAddress>>) -> (res: Result<Binding, Error>)
        ensures
            binds(
                res,
                looked_up(
                    match answer {
                        Some(addresses) => Some(addresses@),
                        None => None,
                    },
                ),
            ),
    {
        match answer {
            None => Err(Error::BadAddress(AddressError::Unresolved)),
            Some(addresses) => Ok(Binding::Sockets(addresses)),
        }
    }
}

/// Resolves the name `chars[from..]` behind `fd://`.
fn resolve_descriptor(chars: &Vec<char>, from: usize, activation: &Activation) -> (res: Result<
    Resolution,
    Error,
>)
    requires
        from <= chars.len(),
        names_fit(activation@),
    ensures
        resolves(res, descriptor(chars@.skip(from as int), activation@)),
{
    if from == chars.len() {
        return match &activation.count {
            None => Err(Error::DescriptorsMissing),
            Some(count) => match parse_i32(count.as_str()) {
                Err(e) => Err(Error::BadDescriptor(e)),
                Ok(n) => if n == 1 {
                    Ok(Resolution::Bound(Binding::FileDescriptor(SD_LISTEN_FDS_START)))
                } else {
                    Err(Error::DescriptorOutOfRange(n))
                },
            },
        };
    }
    if let Ok((negative, v)) = read_integer(chars, from, 0x8000_0000, 0x7fff_ffff) {
        let fd: i32 = if !negative {
            v as i32
        } else if v == 0x8000_0000 {
            i32::MIN
        } else {
            -(v as i32)
        };
        return Ok(Resolution::Bound(Binding::FileDescriptor(fd)));
    }
    if activation.service {
        let name = text_of(chars, from, chars.len());
        return Ok(Resolution::Activate { name });
    }
    let name = part_of(chars, from, chars.len());
    match (&activation.names, &activation.count) {
        (Some(names), Some(count)) => match parse_usize(count.as_str()) {
            Err(e) => Err(Error::BadDescriptor(e)),
            Ok(n) => {
                let names = chars_of(names.as_str());
                let parts = split(&names, ':');
                proof {
                    lemma_fields_count(names@, ':');
                }
                match find_first(&parts, &name) {
                    Some(i) => if i < n {
                        Ok(
                            Resolution::Bound(
                                Binding::FileDescriptor(SD_LISTEN_FDS_START + i as i32),
                            ),
                        )
                    } else {
                        Err(Error::DescriptorsMissing)
                    },
                    None => Err(Error::DescriptorsMissing),
                }
            },
        },
        _ => Err(Error::DescriptorsMissing),
    }
}

/// A text has at most one field more than it has characters.
proof fn lemma_fields_count(s: Seq<char>, sep: char)
    ensures
        1 <= fields(s, sep).len() <= s.len() + 1,
    decreases s.len(),
{
    if s.len() > 0 {
        lemma_fields_count(s.drop_last(), sep);
    }
}

/// Makes the pipe path that `chars[from..]` names behind `npipe://`.
fn resolve_pipe(chars: &Vec<char>, from: usize) -> (path: String)
    requires
        from <= chars.len(),
    ensures
        path@ == pipe_path(chars@.skip(from as int)),
{
    let ghost rest = chars@.skip(from as int);
    let given = from < chars.len() && (chars[from] == '.' || chars[from] == '/' || chars[from]
        == '\\');
    let mut path = if given {
        String::new()
    } else {
        String::from_str("\\\\.\\pipe\\")
    };
    let ghost lead = path@;
    let mut i: usize = from;
    while i < chars.len()
        invariant
            from <= i <= chars.len(),
            rest == chars@.skip(from as int),
            given ==> path@ == lead + rest.take(i - from).map_values(
                |c: char|
                    if c == '/' {
                        '\\'
                    } else {
                        c
                    },
            ),
            !given ==> path@ == lead + rest.take(i - from),
        decreases chars.len() - i,
    {
        let c = chars[i];
        proof {
            assert(rest.take(i - from + 1) == rest.take(i - from).push(c));
        }
        if given && c == '/' {
            path.push('\\');
        } else {
            path.push(c);
        }
        i += 1;
    }
    proof {
        assert(rest.take(i - from) == rest);
    }
    path
}

/// Resolves the address `chars[from..]` behind `tcp://`.
fn resolve_socket(chars: &Vec<char>, from: usize) -> (res: Result<Resolution, Error>)
    requires
        from <= chars.len(),
    ensures
        resolves(res, socket(chars@.skip(from as int))),
{
    let rest = part_of(chars, from, chars.len());
    proof {
        assert(rest@ == chars@.skip(from as int));
        assert(rest@.skip(0) == rest@);
    }
    if let Some(address) = SocketAddress::read(&rest) {
        let addresses = vec![address];
        proof {
            assert(addresses@ == seq![address]);
        }
        return Ok(Resolution::Bound(Binding::Sockets(addresses)));
    }
    match find_last(&rest, 0, ':') {
        None => Err(Error::BadAddress(AddressError::MissingPort)),
        Some(i) => match read_integer(&rest, i + 1, 0, 0xffff) {
            Err(_) => Err(Error::BadAddress(AddressError::InvalidPort)),
            Ok((_, port)) => {
                let host = text_of(&rest, 0, i);
                Ok(Resolution::Lookup { host, port: port as u16 })
            },
        },
    }
}

impl From<String> for Binding {
    /// The binding to the socket file at `path`.
    fn from(path: String) -> (res: Binding) {
        Binding::FilePath(path)
    }
}

impl vstd::std_specs::convert::FromSpecImpl<String> for Binding {
    open spec fn obeys_from_spec() -> bool {
        true
    }

    open spec fn from_spec(path: String) -> Binding {
        Binding::FilePath(path)
    }
}

impl From<SocketAddress> for Binding {
    /// The binding to the one socket `address`.
    fn from(address: SocketAddress) -> (res: Binding)
        ensures
            res@ == BindingView::Sockets(seq![address]),
    {
        let addresses = vec![address];
        proof {
            assert(addresses@ == seq![address]);
        }
        Binding::Sockets(addresses)
    }
}

impl vstd::std_specs::convert::FromSpecImpl<SocketAddress> for Binding {
    /// The binding is stated by its view, on `from` itself.
    open spec fn obeys_from_spec() -> bool {
        false
    }

    open spec fn from_spec(address: SocketAddress) -> Binding {
        arbitrary()
    }
}

/// `s` begins with one of the schemes.
pub open spec fn has_scheme(s: Seq<char>) -> bool {
    begins_with(s, "fd://"@) || begins_with(s, "unix://"@) || begins_with(s, "npipe://"@)
        || begins_with(s, "tcp://"@) || begins_with(s, "\\\\"@)
}

/// A descriptor fails with `UnsupportedScheme` if and only if it begins with
/// none of the schemes, whatever the environment says. A descriptor that
/// begins with a scheme is resolved within that scheme or fails with an
/// error of that scheme.
pub proof fn lemma_unsupported_scheme(s: Seq<char>, a: ActivationView)
    ensures
        resolution(s, a) == Err::<ResolutionView, Error>(Error::UnsupportedScheme) <==> !has_scheme(
            s,
        ),
{
}

/// No descriptor begins with two schemes: the scheme that resolves it is the
/// only one that it matches.
pub proof fn lemma_one_scheme(s: Seq<char>)
    ensures
        begins_with(s, "fd://"@) ==> s[0] == 'f',
        begins_with(s, "unix://"@) ==> s[0] == 'u',
        begins_with(s, "npipe://"@) ==> s[0] == 'n',
        begins_with(s, "tcp://"@) ==> s[0] == 't',
        begins_with(s, "\\\\"@) ==> s[0] == '\\',
{
    reveal_strlit("fd://");
    reveal_strlit("unix://");
    reveal_strlit("npipe://");
    reveal_strlit("tcp://");
    reveal_strlit("\\\\");
    if begins_with(s, "fd://"@) {
        assert(s[0] == s.subrange(0, 5)[0]);
    }
    if begins_with(s, "unix://"@) {
        assert(s[0] == s.subrange(0, 7)[0]);
    }
    if begins_with(s, "npipe://"@) {
        assert(s[0] == s.subrange(0, 8)[0]);
    }
    if begins_with(s, "tcp://"@) {
        assert(s[0] == s.subrange(0, 6)[0]);
    }
    if begins_with(s, "\\\\"@) {
        assert(s[0] == s.subrange(0, 2)[0]);
    }
}

/// The literal of a socket address behind `tcp://` resolves to the binding
/// to that one address, with its IP and port as they were written, whatever
/// the environment says. Flow information has no place in a literal, so an
/// address that carries some is left out.
pub proof fn lemma_literal_resolves(address: SocketAddress, a: ActivationView)
    requires
        address matches SocketAddress::V6 { flowinfo, .. } ==> flowinfo == 0,
    ensures
        resolution("tcp://"@ + literal(address), a) == Ok::<ResolutionView, Error>(
            ResolutionView::Bound(BindingView::Sockets(seq![address])),
        ),
{
    let s = "tcp://"@ + literal(address);
    lemma_one_scheme(s);
    assert(s.subrange(0, "tcp://"@.len() as int) =~= "tcp://"@);
    assert(s.skip("tcp://"@.len() as int) =~= literal(address));
    lemma_literal_read(address);
}

} // verus!
