//! The data that the Docker daemon hands out, and how a query to it is addressed and judged.

use crate::string_map::StringMap;
use vstd::prelude::*;
use vstd::string::*;
use vstd::utf8::{decode_utf8, valid_utf8};

verus! {

/// A container, as a listing shows it.
#[derive(Clone)]
pub struct Container {
    pub id: String,
    pub names: Vec<String>,
}

/// Whether a container runs, and since when.
#[derive(Clone)]
pub struct ContainerState {
    pub running: bool,
    pub restarting: bool,
    pub started_at: String,
}

/// What inspecting a container shows.
#[derive(Clone)]
pub struct ContainerInspect {
    pub state: ContainerState,
    pub restart_count: u32,
}

/// The memory that a container uses.
#[derive(Clone)]
pub struct MemoryStats {
    pub stats: StringMap<u64>,
    pub usage: u64,
}

/// The processor time that a container has used.
#[derive(Clone)]
pub struct CpuUsage {
    pub total_usage: u64,
}

/// The processor time that a container has used and could have used.
#[derive(Clone)]
pub struct CpuStats {
    pub cpu_usage: CpuUsage,
    pub system_cpu_usage: u64,
}

/// The traffic on one network interface.
#[derive(Clone)]
pub struct Network {
    pub rx_bytes: u64,
    pub tx_bytes: u64,
}

/// The bytes that one kind of disk operation has moved.
#[derive(Clone)]
pub struct BlkioServiceBytesStat {
    pub op: String,
    pub value: u64,
}

/// The bytes that disk operations have moved.
#[derive(Clone)]
pub struct BlkioStats {
    pub io_service_bytes_recursive: Vec<BlkioServiceBytesStat>,
}

/// What a running container uses.
#[derive(Clone)]
pub struct ContainerStats {
    pub cpu_stats: CpuStats,
    pub memory_stats: MemoryStats,
    pub networks: StringMap<Network>,
    pub blkio_stats: BlkioStats,
}

/// An image, as a listing shows it.
#[derive(Clone)]
pub struct Image {
    pub id: String,
    pub containers: u32,
    pub repo_tags: Vec<String>,
    pub size: u64,
}

/// How much a volume holds, and how many containers use it.
#[derive(Clone)]
pub struct VolumeUsage {
    pub ref_count: u32,
    pub size: u64,
}

/// A volume, as a listing shows it.
#[derive(Clone)]
pub struct Volume {
    pub name: String,
    pub driver: String,
    pub labels: StringMap<String>,
    pub usage_data: VolumeUsage,
}

/// Everything that the daemon keeps on disk.
#[derive(Clone)]
pub struct DataUsage {
    pub images: Vec<Image>,
    pub containers: Vec<Container>,
    pub volumes: Vec<Volume>,
}

impl Default for CpuUsage {
    fn default() -> (r: Self)
        ensures
            r.total_usage == 0,
    {
        CpuUsage { total_usage: 0 }
    }
}

impl Default for BlkioStats {
    fn default() -> (r: Self)
        ensures
            r.io_service_bytes_recursive@.len() == 0,
    {
        BlkioStats { io_service_bytes_recursive: Vec::new() }
    }
}

/// Why a query to the daemon brought no data.
pub enum DockerError {
    /// No answer came in time.
    Timeout { endpoint: String },
    /// The connection failed, or broke while the answer came in.
    Transport { endpoint: String, error: String },
    /// The daemon answered with a status that is no success.
    Http { endpoint: String, status: String, body: String },
    /// The answer did not hold the data that was asked for.
    Deserialization { endpoint: String, error: String, body: String },
}

/// What a query brings.
pub type DockerResult<T> = Result<T, DockerError>;

/// Where the daemon listens, unless told otherwise.
pub const SOCKET_PATH: &'static str = "/var/run/docker.sock";

/// The version of the daemon's interface that the queries are written for.
pub const API_VERSION: &'static str = "/v1.44";

/// How many seconds a query waits for its answer.
pub const REQUEST_TIMEOUT_SECONDS: u64 = 15;

/// Where all containers are listed.
pub const CONTAINERS_ENDPOINT: &'static str = "/v1.44/containers/json?all=true";

/// Where everything on disk is listed.
pub const DATA_USAGE_ENDPOINT: &'static str = "/v1.44/system/df";

impl DockerError {
    /// The line that reports the failure.
    pub open spec fn line(self) -> Seq<char> {
        match self {
            DockerError::Timeout { endpoint } => endpoint@ + " timed out."@,
            DockerError::Transport { endpoint, error } => endpoint@ + " "@ + error@,
            DockerError::Http { endpoint, status, body } => endpoint@ + " HTTP "@ + status@
                + " - "@ + body@,
            DockerError::Deserialization { endpoint, error, body } => endpoint@
                + " deserialization error "@ + error@ + " - "@ + body@,
        }
    }

    /// The line that reports the failure.
    pub fn message(&self) -> (r: String)
        ensures
            r@ == self.line(),
    {
        match self {
            DockerError::Timeout { endpoint } => endpoint.clone().concat(" timed out."),
            DockerError::Transport { endpoint, error } => endpoint.clone().concat(" ").concat(
                error.as_str(),
            ),
            DockerError::Http { endpoint, status, body } => endpoint.clone().concat(
                " HTTP ",
            ).concat(status.as_str()).concat(" - ").concat(body.as_str()),
            DockerError::Deserialization { endpoint, error, body } => endpoint.clone().concat(
                " deserialization error ",
            ).concat(error.as_str()).concat(" - ").concat(body.as_str()),
        }
    }
}

/// Where the container `id` is inspected.
pub open spec fn inspect_address(id: Seq<char>) -> Seq<char> {
    API_VERSION@ + "/containers/"@ + id + "/json"@
}

/// Where the container `id` is measured.
pub open spec fn stats_address(id: Seq<char>) -> Seq<char> {
    API_VERSION@ + "/containers/"@ + id + "/stats?stream=false"@
}

/// Where the container `id` is inspected.
pub fn inspect_endpoint(id: &str) -> (r: String)
    ensures
        r@ == API_VERSION@ + "/containers/"@ + id@ + "/json"@,
        r@ == inspect_address(id@),
{
    API_VERSION.to_owned().concat("/containers/").concat(id).concat("/json")
}

/// Where the use that the container `id` makes of its host is measured, once.
pub fn stats_endpoint(id: &str) -> (r: String)
    ensures
        r@ == API_VERSION@ + "/containers/"@ + id@ + "/stats?stream=false"@,
        r@ == stats_address(id@),
{
    API_VERSION.to_owned().concat("/containers/").concat(id).concat("/stats?stream=false")
}

/// How an exchange with the daemon went.
pub enum Exchange {
    /// No answer came in time.
    TimedOut,
    /// The request failed.
    Failed(String),
    /// An answer came: its status as a number and in words, and its body or why that could
    /// not be read.
    Answered { code: u16, status: String, body: Result<Vec<u8>, String> },
}

/// The text that `String::from_utf8_lossy` makes of bytes.
pub uninterp spec fn utf8_lossy(bytes: Seq<u8>) -> Seq<char>;

/// `String::from_utf8_lossy`: the text depends on the bytes alone, and it is what they encode
/// wherever they are valid UTF-8. What replaces the bytes that are not is left unsaid.
#[verifier::external_body]
fn from_utf8_lossy(bytes: &Vec<u8>) -> (r: String)
    ensures
        r@ == utf8_lossy(bytes@),
        valid_utf8(bytes@) ==> r@ == decode_utf8(bytes@),
{
    String::from_utf8_lossy(bytes).into_owned()
}

/// The exchange brought a whole answer with a status that is a success.
pub open spec fn succeeded(exchange: Exchange) -> bool {
    match exchange {
        Exchange::Answered { code, status, body } => body is Ok && 200 <= code < 300,
        _ => false,
    }
}

/// The line that reports an exchange that was no success.
pub open spec fn report(endpoint: Seq<char>, exchange: Exchange) -> Seq<char> {
    match exchange {
        Exchange::TimedOut => endpoint + " timed out."@,
        Exchange::Failed(error) => endpoint + " "@ + error@,
        Exchange::Answered { code, status, body } => match body {
            Err(error) => endpoint + " "@ + error@,
            Ok(bytes) => endpoint + " HTTP "@ + status@ + " - "@ + utf8_lossy(bytes@),
        },
    }
}

/// The line that reports data that could not be read from a body.
pub open spec fn decoding_report(
    endpoint: Seq<char>,
    error: Seq<char>,
    body: Seq<u8>,
) -> Seq<char> {
    endpoint + " deserialization error "@ + error + " - "@ + utf8_lossy(body)
}

/// The body to read data from, if the exchange was a success.
///
/// A failure is reported by the first thing that went wrong: no answer, no connection, a body
/// that broke off, a status outside 200 to 299.
pub fn response_body(endpoint: &str, exchange: Exchange) -> (r: DockerResult<Vec<u8>>)
    ensures
        r is Ok <==> succeeded(exchange),
        r matches Err(e) ==> e.line() == report(endpoint@, exchange),
        match exchange {
            Exchange::TimedOut => r matches Err(DockerError::Timeout { endpoint: e }) && e@
                == endpoint@,
            Exchange::Failed(error) => r matches Err(
                DockerError::Transport { endpoint: e, error: t },
            ) && e@ == endpoint@ && t == error,
            Exchange::Answered { code, status, body } => match body {
                Err(error) => r matches Err(DockerError::Transport { endpoint: e, error: t })
                    && e@ == endpoint@ && t == error,
                Ok(bytes) => if 200 <= code < 300 {
                    r matches Ok(b) && b == bytes
                } else {
                    r matches Err(DockerError::Http { endpoint: e, status: s, body: b }) && e@
                        == endpoint@ && s == status && b@ == utf8_lossy(bytes@) && (valid_utf8(
                        bytes@,
                    ) ==> b@ == decode_utf8(bytes@))
                },
            },
        },
{
    match exchange {
        Exchange::TimedOut => Err(DockerError::Timeout { endpoint: endpoint.to_owned() }),
        Exchange::Failed(error) => Err(
            DockerError::Transport { endpoint: endpoint.to_owned(), error },
        ),
        Exchange::Answered { code, status, body } => match body {
            Err(error) => Err(DockerError::Transport { endpoint: endpoint.to_owned(), error }),
            Ok(bytes) => if 200 <= code && code < 300 {
                Ok(bytes)
            } else {
                Err(
                    DockerError::Http {
                        endpoint: endpoint.to_owned(),
                        status,
                        body: from_utf8_lossy(&bytes),
                    },
                )
            },
        },
    }
}

/// The data that was read from a body, or the failure to read it.
pub fn decoded<T>(endpoint: &str, body: &Vec<u8>, data: Result<T, String>) -> (r: DockerResult<T>)
    ensures
        r is Ok <==> data is Ok,
        r matches Err(e) ==> e.line() == decoding_report(endpoint@, data->Err_0@, body@),
        match data {
            Ok(d) => r matches Ok(x) && x == d,
            Err(error) => r matches Err(
                DockerError::Deserialization { endpoint: e, error: t, body: b },
            ) && e@ == endpoint@ && t == error && b@ == utf8_lossy(body@) && (valid_utf8(body@)
                ==> b@ == decode_utf8(body@)),
        },
{
    match data {
        Ok(d) => Ok(d),
        Err(error) => Err(
            DockerError::Deserialization {
                endpoint: endpoint.to_owned(),
                error,
                body: from_utf8_lossy(body),
            },
        ),
    }
}

/// The address of a query names the interface's version, the container by its whole
/// identifier, and what is asked; no two containers and no two questions share one.
pub proof fn addresses_name_the_container(a: Seq<char>, b: Seq<char>)
    ensures
        inspect_address(a) == "/v1.44/containers/"@ + a + "/json"@,
        stats_address(a) == "/v1.44/containers/"@ + a + "/stats?stream=false"@,
        inspect_address(a) == inspect_address(b) ==> a == b,
        stats_address(a) == stats_address(b) ==> a == b,
        inspect_address(a) != stats_address(b),
{
    reveal_strlit("/v1.44");
    reveal_strlit("/containers/");
    reveal_strlit("/v1.44/containers/");
    reveal_strlit("/json");
    reveal_strlit("/stats?stream=false");
    let n: int = 18;
    assert(API_VERSION@ + "/containers/"@ =~= "/v1.44/containers/"@);
    assert(inspect_address(a) =~= "/v1.44/containers/"@ + a + "/json"@);
    assert(stats_address(a) =~= "/v1.44/containers/"@ + a + "/stats?stream=false"@);
    assert(inspect_address(a).subrange(n, n + a.len()) =~= a);
    assert(inspect_address(b).subrange(n, n + b.len()) =~= b);
    assert(stats_address(a).subrange(n, n + a.len()) =~= a);
    assert(stats_address(b).subrange(n, n + b.len()) =~= b);
    if inspect_address(a) == inspect_address(b) {
        assert(inspect_address(a).len() == inspect_address(b).len());
    }
    if stats_address(a) == stats_address(b) {
        assert(stats_address(a).len() == stats_address(b).len());
    }
    assert(inspect_address(a).last() == 'n');
    assert(stats_address(b).last() == 'e');
}

/// An answer is a success exactly where its body came in whole and its status is one of the
/// two hundreds.
pub proof fn only_the_two_hundreds_succeed(
    code: u16,
    status: String,
    body: Result<Vec<u8>, String>,
    error: String,
)
    ensures
        succeeded(Exchange::Answered { code, status, body }) <==> body is Ok && code as int / 100
            == 2,
        !succeeded(Exchange::TimedOut),
        !succeeded(Exchange::Failed(error)),
{
}

/// The line that reports a failure begins with the endpoint, ends with what came back or went
/// wrong, whole, and holds the status or the error between them.
pub proof fn lines_report_the_whole_failure(
    endpoint: String,
    error: String,
    status: String,
    body: String,
)
    ensures
        ({
            let line = DockerError::Timeout { endpoint }.line();
            endpoint@.is_prefix_of(line) && line.len() == endpoint@.len() + 11
        }),
        ({
            let line = DockerError::Transport { endpoint, error }.line();
            endpoint@.is_prefix_of(line) && error@.is_suffix_of(line) && line.len()
                == endpoint@.len() + error@.len() + 1
        }),
        ({
            let line = DockerError::Http { endpoint, status, body }.line();
            let at = endpoint@.len() as int + 6;
            endpoint@.is_prefix_of(line) && body@.is_suffix_of(line) && line.subrange(
                at,
                at + status@.len(),
            ) == status@ && line.len() == endpoint@.len() + status@.len() + body@.len() + 9
        }),
        ({
            let line = DockerError::Deserialization { endpoint, error, body }.line();
            let at = endpoint@.len() as int + 23;
            endpoint@.is_prefix_of(line) && body@.is_suffix_of(line) && line.subrange(
                at,
                at + error@.len(),
            ) == error@ && line.len() == endpoint@.len() + error@.len() + body@.len() + 26
        }),
{
    reveal_strlit(" timed out.");
    reveal_strlit(" ");
    reveal_strlit(" HTTP ");
    reveal_strlit(" - ");
    reveal_strlit(" deserialization error ");
    let line = DockerError::Http { endpoint, status, body }.line();
    let at = endpoint@.len() as int + 6;
    assert(line.subrange(at, at + status@.len()) =~= status@);
    let line = DockerError::Deserialization { endpoint, error, body }.line();
    let at = endpoint@.len() as int + 23;
    assert(line.subrange(at, at + error@.len()) =~= error@);
}

/// The line that reports a failed exchange begins with the endpoint and ends with all that the
/// daemon or the connection had to say; between them stands the status, where there is one.
pub proof fn reports_hold_the_whole_answer(
    endpoint: Seq<char>,
    code: u16,
    status: String,
    bytes: Vec<u8>,
    error: String,
)
    ensures
        ({
            let line = report(endpoint, Exchange::TimedOut);
            endpoint.is_prefix_of(line) && line.len() == endpoint.len() + 11
        }),
        ({
            let line = report(endpoint, Exchange::Failed(error));
            endpoint.is_prefix_of(line) && error@.is_suffix_of(line) && line.len() == endpoint.len()
                + error@.len() + 1
        }),
        report(endpoint, Exchange::Answered { code, status, body: Err(error) }) == report(
            endpoint,
            Exchange::Failed(error),
        ),
        ({
            let line = report(endpoint, Exchange::Answered { code, status, body: Ok(bytes) });
            let text = utf8_lossy(bytes@);
            let at = endpoint.len() as int + 6;
            endpoint.is_prefix_of(line) && text.is_suffix_of(line) && line.subrange(
                at,
                at + status@.len(),
            ) == status@ && line.len() == endpoint.len() + status@.len() + text.len() + 9
        }),
        ({
            let line = decoding_report(endpoint, error@, bytes@);
            let text = utf8_lossy(bytes@);
            let at = endpoint.len() as int + 23;
            endpoint.is_prefix_of(line) && text.is_suffix_of(line) && line.subrange(
                at,
                at + error@.len(),
            ) == error@ && line.len() == endpoint.len() + error@.len() + text.len() + 26
        }),
{
    reveal_strlit(" timed out.");
    reveal_strlit(" ");
    reveal_strlit(" HTTP ");
    reveal_strlit(" - ");
    reveal_strlit(" deserialization error ");
    let line = report(endpoint, Exchange::Answered { code, status, body: Ok(bytes) });
    let at = endpoint.len() as int + 6;
    assert(line.subrange(at, at + status@.len()) =~= status@);
    let line = decoding_report(endpoint, error@, bytes@);
    let at = endpoint.len() as int + 23;
    assert(line.subrange(at, at + error@.len()) =~= error@);
}

} // verus!
