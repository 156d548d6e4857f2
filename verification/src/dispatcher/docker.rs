//! Managed workers: how the Docker daemon is reached, which containers there
//! should be, and what is to be done about one that is there already.

use crate::engine::types::{is_text, text_view};
use crate::text::{
    begins_with, chars_of, concat, decimal, decimal_text, has_text, same_text, starts_with, texts,
};
use vstd::prelude::*;

verus! {

/// Where the files lie that a listener needs for TLS.
#[derive(Debug, Clone, PartialEq, Eq)]
pub struct TlsFiles {
    pub ca_cert_path: String,
    pub cert_path: String,
    pub key_path: String,
}

/// A queue whose workers run in containers.
#[derive(Debug, Clone, PartialEq, Eq)]
pub struct ManagedQueue {
    pub name: String,
    pub image: String,
    pub replicas: u32,
    pub env: Vec<String>,
}

/// How to reach the Docker daemon used for managed worker containers.
///
/// An empty / default value uses the local defaults (Unix socket or Windows
/// named pipe). Set `endpoint` for an explicit socket, named pipe, or remote
/// TCP daemon. TLS paths must be supplied together for `tcp://` / `https://`
/// endpoints; `https://` always uses explicit mTLS.
#[derive(Debug, Clone, PartialEq, Eq)]
pub struct DockerConnectOptions {
    pub endpoint: Option<String>,
    pub ca_cert_path: Option<String>,
    pub cert_path: Option<String>,
    pub key_path: Option<String>,
}

impl Default for DockerConnectOptions {
    fn default() -> (r: Self)
        ensures
            r.endpoint is None,
            r.ca_cert_path is None,
            r.cert_path is None,
            r.key_path is None,
    {
        DockerConnectOptions {
            endpoint: None,
            ca_cert_path: None,
            cert_path: None,
            key_path: None,
        }
    }
}

/// How long connecting may take.
pub const DOCKER_CONNECT_TIMEOUT_SECS: u64 = 120;

/// What kind of system this runs on.
#[derive(Debug, Clone, Copy, PartialEq, Eq, Structural)]
pub enum HostKind {
    Unix,
    Windows,
    Other,
}

/// A way to connect to the daemon.
#[derive(Debug, PartialEq, Eq)]
pub enum DockerConnection {
    LocalDefaults,
    UnixSocket { endpoint: String },
    NamedPipe { endpoint: String },
    Tls { endpoint: String, ca: String, cert: String, key: String },
    Http { endpoint: String },
}

/// What a way to connect says.
#[verifier::ext_equal]
pub enum DockerConnectionView {
    LocalDefaults,
    UnixSocket(Seq<char>),
    NamedPipe(Seq<char>),
    Tls(Seq<char>, Seq<char>, Seq<char>, Seq<char>),
    Http(Seq<char>),
}

impl View for DockerConnection {
    type V = DockerConnectionView;

    open spec fn view(&self) -> DockerConnectionView {
        match *self {
            DockerConnection::LocalDefaults => DockerConnectionView::LocalDefaults,
            DockerConnection::UnixSocket { endpoint } => DockerConnectionView::UnixSocket(endpoint@),
            DockerConnection::NamedPipe { endpoint } => DockerConnectionView::NamedPipe(endpoint@),
            DockerConnection::Tls { endpoint, ca, cert, key } => DockerConnectionView::Tls(
                endpoint@,
                ca@,
                cert@,
                key@,
            ),
            DockerConnection::Http { endpoint } => DockerConnectionView::Http(endpoint@),
        }
    }
}

/// Whether an endpoint is reached over TCP.
pub open spec fn is_remote(endpoint: Seq<char>) -> bool {
    begins_with(endpoint, "tcp://"@) || begins_with(endpoint, "http://"@) || begins_with(
        endpoint,
        "https://"@,
    )
}

/// How the daemon is to be reached, or why it cannot be.
pub open spec fn connection_of(
    endpoint: Option<Seq<char>>,
    ca: Option<Seq<char>>,
    cert: Option<Seq<char>>,
    key: Option<Seq<char>>,
    host: HostKind,
) -> Result<DockerConnectionView, Seq<char>> {
    match endpoint {
        None => Ok(DockerConnectionView::LocalDefaults),
        Some(endpoint) => if begins_with(endpoint, "unix://"@) {
            if host == HostKind::Unix {
                Ok(DockerConnectionView::UnixSocket(endpoint))
            } else {
                Err("unix:// Docker endpoints are only supported on Unix hosts"@)
            }
        } else if begins_with(endpoint, "npipe://"@) {
            if host == HostKind::Windows {
                Ok(DockerConnectionView::NamedPipe(endpoint))
            } else {
                Err("npipe:// Docker endpoints are only supported on Windows hosts"@)
            }
        } else if is_remote(endpoint) {
            match (ca, cert, key) {
                (Some(ca), Some(cert), Some(key)) => Ok(
                    DockerConnectionView::Tls(endpoint, ca, cert, key),
                ),
                (None, None, None) => Ok(DockerConnectionView::Http(endpoint)),
                _ => Err("docker TLS requires ca_cert_path, cert_path, and key_path together"@),
            }
        } else {
            Err("unsupported docker endpoint scheme: "@ + endpoint)
        },
    }
}

/// Decides how the daemon is to be reached from a system of kind `host`.
pub fn connect_docker(options: &DockerConnectOptions, host: HostKind) -> (r: Result<
    DockerConnection,
    String,
>)
    ensures
        match (
            r,
            connection_of(
                text_view(options.endpoint),
                text_view(options.ca_cert_path),
                text_view(options.cert_path),
                text_view(options.key_path),
                host,
            ),
        ) {
            (Ok(connection), Ok(expected)) => connection@ == expected,
            (Err(message), Err(expected)) => message@ == expected,
            _ => false,
        },
{
    let endpoint = match &options.endpoint {
        None => {
            return Ok(DockerConnection::LocalDefaults);
        },
        Some(endpoint) => endpoint,
    };
    if starts_with(endpoint.as_str(), "unix://") {
        if host == HostKind::Unix {
            return Ok(DockerConnection::UnixSocket { endpoint: endpoint.clone() });
        }
        return Err("unix:// Docker endpoints are only supported on Unix hosts".to_owned());
    }
    if starts_with(endpoint.as_str(), "npipe://") {
        if host == HostKind::Windows {
            return Ok(DockerConnection::NamedPipe { endpoint: endpoint.clone() });
        }
        return Err("npipe:// Docker endpoints are only supported on Windows hosts".to_owned());
    }
    if starts_with(endpoint.as_str(), "tcp://") || starts_with(endpoint.as_str(), "http://")
        || starts_with(endpoint.as_str(), "https://") {
        return match (&options.ca_cert_path, &options.cert_path, &options.key_path) {
            (Some(ca), Some(cert), Some(key)) => Ok(
                DockerConnection::Tls {
                    endpoint: endpoint.clone(),
                    ca: ca.clone(),
                    cert: cert.clone(),
                    key: key.clone(),
                },
            ),
            (None, None, None) => Ok(DockerConnection::Http { endpoint: endpoint.clone() }),
            _ => Err(
                "docker TLS requires ca_cert_path, cert_path, and key_path together".to_owned(),
            ),
        };
    }
    Err(concat("unsupported docker endpoint scheme: ", endpoint.as_str()))
}

/// Whether a character is a letter or a digit of ASCII.
pub open spec fn is_plain(c: char) -> bool {
    ||| '0' <= c <= '9'
    ||| 'A' <= c <= 'Z'
    ||| 'a' <= c <= 'z'
}

/// `name` with a hyphen for every character that is not plain.
pub open spec fn sanitized(name: Seq<char>) -> Seq<char> {
    name.map_values(
        |c: char|
            if is_plain(c) {
                c
            } else {
                '-'
            },
    )
}

/// The name of the container that runs replica `ordinal` of `queue`.
pub open spec fn container_name_of(queue: Seq<char>, ordinal: int) -> Seq<char> {
    "maqistor-"@ + sanitized(queue) + "-"@ + decimal(ordinal as nat)
}

/// The name of the container that runs replica `ordinal` of `queue`.
pub fn container_name(queue: &str, ordinal: u32) -> (r: String)
    ensures
        r@ == container_name_of(queue@, ordinal as int),
{
    let chars = chars_of(queue);
    let mut name = "maqistor-".to_owned();
    let mut i: usize = 0;
    proof {
        assert(sanitized(queue@).take(0) =~= Seq::<char>::empty());
        assert("maqistor-"@ + Seq::<char>::empty() =~= "maqistor-"@);
    }
    while i < chars.len()
        invariant
            i <= chars@.len(),
            chars@ == queue@,
            name@ == "maqistor-"@ + sanitized(queue@).take(i as int),
        decreases chars.len() - i,
    {
        let c = chars[i];
        let plain = ('0' <= c && c <= '9') || ('A' <= c && c <= 'Z') || ('a' <= c && c <= 'z');
        let ghost before = name@;
        name.push(
            if plain {
                c
            } else {
                '-'
            },
        );
        i += 1;
        proof {
            assert(sanitized(queue@).take(i as int) =~= sanitized(queue@).take(i - 1).push(
                sanitized(queue@)[i - 1],
            ));
            assert(name@ =~= "maqistor-"@ + sanitized(queue@).take(i as int));
        }
    }
    proof {
        assert(sanitized(queue@).take(queue@.len() as int) =~= sanitized(queue@));
    }
    let digits = decimal_text(ordinal as u64);
    name.append("-");
    name.append(digits.as_str());
    name
}

/// What the daemon tells of a container.
#[derive(Debug, Clone, PartialEq, Eq)]
pub struct ContainerInfo {
    pub image: Option<String>,
    pub env: Option<Vec<String>>,
    pub labels: Option<Vec<(String, String)>>,
}

/// The environment of a container: none where nothing is told.
pub open spec fn env_of(info: ContainerInfo) -> Seq<Seq<char>> {
    match info.env {
        Some(env) => texts(env@),
        None => Seq::empty(),
    }
}

/// Whether the label at `at` is `name` with `value`.
pub open spec fn label_at(
    labels: Seq<(String, String)>,
    name: Seq<char>,
    value: Seq<char>,
    at: int,
) -> bool {
    0 <= at < labels.len() && labels[at].0@ == name && labels[at].1@ == value
}

/// Whether a container carries the label of managed workers.
pub open spec fn is_managed(info: ContainerInfo) -> bool {
    match info.labels {
        Some(labels) => exists|at: int|
            label_at(labels@, "io.maqistor.managed"@, "true"@, at),
        None => false,
    }
}

/// Whether a container is not what it should be: it runs another image, or
/// lacks something of the environment.
pub open spec fn is_outdated(info: ContainerInfo, image: Seq<char>, env: Seq<Seq<char>>) -> bool {
    ||| text_view(info.image) != Some(image)
    ||| exists|i: int| 0 <= i < env.len() && !env_of(info).contains(#[trigger] env[i])
}

/// What is to be done about a container.
#[derive(Debug, PartialEq, Eq)]
pub enum ContainerAction {
    /// It is as it should be: make sure that it runs.
    Start,
    /// It is outdated: remove it, then create and start a new one.
    Replace,
    /// There is none: create and start one.
    Create,
}

/// Whether `labels` holds the label of managed workers.
fn has_managed_label(labels: &Vec<(String, String)>) -> (r: bool)
    ensures
        r == exists|at: int| label_at(labels@, "io.maqistor.managed"@, "true"@, at),
{
    let mut i: usize = 0;
    while i < labels.len()
        invariant
            i <= labels@.len(),
            forall|k: int|
                0 <= k < i ==> !label_at(labels@, "io.maqistor.managed"@, "true"@, k),
        decreases labels.len() - i,
    {
        if same_text(labels[i].0.as_str(), "io.maqistor.managed") && same_text(
            labels[i].1.as_str(),
            "true",
        ) {
            proof {
                assert(label_at(labels@, "io.maqistor.managed"@, "true"@, i as int));
            }
            return true;
        }
        i += 1;
    }
    false
}

/// Whether `have` holds every text of `wanted`.
fn has_all(have: &Vec<String>, wanted: &Vec<String>) -> (r: bool)
    ensures
        r == forall|i: int|
            0 <= i < wanted@.len() ==> texts(have@).contains(#[trigger] texts(wanted@)[i]),
{
    let mut i: usize = 0;
    while i < wanted.len()
        invariant
            i <= wanted@.len(),
            forall|k: int| 0 <= k < i ==> texts(have@).contains(#[trigger] texts(wanted@)[k]),
        decreases wanted.len() - i,
    {
        if !has_text(have, wanted[i].as_str()) {
            proof {
                assert(!texts(have@).contains(texts(wanted@)[i as int]));
            }
            return false;
        }
        i += 1;
    }
    true
}

/// Decides what is to be done so that replica `ordinal` of `queue` runs
/// `desired_image`. A container that is outdated and does not carry the label
/// of managed workers is left alone, and that is an error.
pub fn plan_container(
    queue: &ManagedQueue,
    ordinal: u32,
    desired_image: &str,
    current: Option<ContainerInfo>,
) -> (r: Result<ContainerAction, String>)
    ensures
        match (r, current) {
            (Ok(action), None) => action == ContainerAction::Create,
            (Ok(action), Some(info)) => {
                let outdated = is_outdated(info, desired_image@, texts(queue.env@));
                &&& outdated ==> is_managed(info) && action == ContainerAction::Replace
                &&& !outdated ==> action == ContainerAction::Start
            },
            (Err(message), Some(info)) => {
                &&& is_outdated(info, desired_image@, texts(queue.env@))
                &&& !is_managed(info)
                &&& message@ == "refusing to replace non-Maqistor container "@
                    + container_name_of(queue.name@, ordinal as int)
            },
            (Err(_), None) => false,
        },
        r matches Ok(ContainerAction::Start) ==> {
            &&& current matches Some(info)
            &&& info.image matches Some(image)
            &&& image@ == desired_image@
            &&& match info.env {
                Some(have) => forall|i: int|
                    0 <= i < queue.env@.len() ==> texts(have@).contains(
                        (#[trigger] queue.env@[i])@,
                    ),
                None => queue.env@.len() == 0,
            }
        },
        (current matches Some(info) && (info.image matches Some(image) ==> image@
            != desired_image@)) ==> (match r {
            Ok(action) => action == ContainerAction::Replace,
            Err(_) => !is_managed(current->Some_0),
        }),
{
    let info = match current {
        None => {
            return Ok(ContainerAction::Create);
        },
        Some(info) => info,
    };
    let same_image = is_text(&info.image, desired_image);
    let none: Vec<String> = Vec::new();
    let have = match &info.env {
        Some(env) => env,
        None => &none,
    };
    let same_env = has_all(have, &queue.env);
    proof {
        assert(texts(have@) =~= env_of(info));
        if !same_env {
            let i = choose|i: int|
                0 <= i < queue.env@.len() && !texts(have@).contains(
                    #[trigger] texts(queue.env@)[i],
                );
            assert(!env_of(info).contains(texts(queue.env@)[i]));
        }
    }
    if same_image && same_env {
        proof {
            assert forall|i: int| 0 <= i < queue.env@.len() implies env_of(info).contains(
                (#[trigger] queue.env@[i])@,
            ) by {
                assert(env_of(info).contains(texts(queue.env@)[i]));
            }
            if info.env is None && queue.env@.len() > 0 {
                assert(env_of(info).contains(queue.env@[0]@));
            }
        }
        return Ok(ContainerAction::Start);
    }
    let managed = match &info.labels {
        Some(labels) => has_managed_label(labels),
        None => false,
    };
    if !managed {
        let name = container_name(queue.name.as_str(), ordinal);
        return Err(concat("refusing to replace non-Maqistor container ", name.as_str()));
    }
    Ok(ContainerAction::Replace)
}

/// Whether `labels` mark a container as the managed replica `ordinal` of
/// `queue`.
pub open spec fn marks(labels: Seq<(String, String)>, queue: Seq<char>, ordinal: int) -> bool {
    &&& labels.len() == 3
    &&& labels[0].0@ == "io.maqistor.managed"@ && labels[0].1@ == "true"@
    &&& labels[1].0@ == "io.maqistor.queue"@ && labels[1].1@ == queue
    &&& labels[2].0@ == "io.maqistor.replica"@ && labels[2].1@ == decimal(ordinal as nat)
}

/// The labels of the container that runs replica `ordinal` of `queue`.
pub fn container_labels(queue: &str, ordinal: u32) -> (r: Vec<(String, String)>)
    ensures
        r@.len() == 3,
        r@[0].0@ == "io.maqistor.managed"@ && r@[0].1@ == "true"@,
        r@[1].0@ == "io.maqistor.queue"@ && r@[1].1@ == queue@,
        r@[2].0@ == "io.maqistor.replica"@ && r@[2].1@ == decimal(ordinal as nat),
        marks(r@, queue@, ordinal as int),
{
    let mut labels: Vec<(String, String)> = Vec::new();
    labels.push(("io.maqistor.managed".to_owned(), "true".to_owned()));
    labels.push(("io.maqistor.queue".to_owned(), queue.to_owned()));
    labels.push(("io.maqistor.replica".to_owned(), decimal_text(ordinal as u64)));
    labels
}

/// The replicas that there should be: of each queue in turn, from zero on.
pub open spec fn desired_replicas(queues: Seq<ManagedQueue>) -> Seq<(int, int)>
    decreases queues.len(),
{
    if queues.len() == 0 {
        Seq::empty()
    } else {
        desired_replicas(queues.drop_last()) + Seq::new(
            queues.last().replicas as nat,
            |ordinal: int| (queues.len() - 1, ordinal),
        )
    }
}

/// Queues and ordinals, as plain values.
pub open spec fn replica_views(list: Seq<(usize, u32)>) -> Seq<(int, int)> {
    list.map_values(|p: (usize, u32)| (p.0 as int, p.1 as int))
}

/// The replicas that a reconciliation goes through, as positions in `queues`
/// and ordinals.
pub fn reconcile_order(queues: &Vec<ManagedQueue>) -> (r: Vec<(usize, u32)>)
    ensures
        replica_views(r@) == desired_replicas(queues@),
{
    let mut list: Vec<(usize, u32)> = Vec::new();
    let mut i: usize = 0;
    proof {
        assert(queues@.take(0) =~= Seq::<ManagedQueue>::empty());
        assert(replica_views(list@) =~= Seq::<(int, int)>::empty());
    }
    while i < queues.len()
        invariant
            i <= queues@.len(),
            replica_views(list@) == desired_replicas(queues@.take(i as int)),
        decreases queues.len() - i,
    {
        let ghost before = replica_views(list@);
        let replicas: u32 = queues[i].replicas;
        let mut ordinal: u32 = 0;
        proof {
            assert(queues@.take(i + 1).drop_last() =~= queues@.take(i as int));
            assert(queues@.take(i + 1).last() == queues@[i as int]);
            assert(before + Seq::new(0, |k: int| (i as int, k)) =~= before);
        }
        while ordinal < replicas
            invariant
                ordinal <= replicas,
                replica_views(list@) == before + Seq::new(
                    ordinal as nat,
                    |k: int| (i as int, k),
                ),
            decreases replicas - ordinal,
        {
            proof {
                assert(replica_views(list@.push((i, ordinal))) =~= replica_views(list@).push(
                    (i as int, ordinal as int),
                ));
                assert(before + Seq::new((ordinal + 1) as nat, |k: int| (i as int, k)) =~= (before
                    + Seq::new(ordinal as nat, |k: int| (i as int, k))).push(
                    (i as int, ordinal as int),
                ));
            }
            list.push((i, ordinal));
            ordinal += 1;
        }
        proof {
            assert(Seq::new(replicas as nat, |k: int| (i as int, k)) =~= Seq::new(
                queues@[i as int].replicas as nat,
                |ordinal: int| (queues@.take(i + 1).len() - 1, ordinal),
            ));
        }
        i += 1;
    }
    proof {
        assert(queues@.take(queues@.len() as int) =~= queues@);
    }
    list
}

/// The ids of images that have been looked up.
pub struct ImageCache {
    pub entries: Vec<(String, String)>,
}

/// The id on record for `image`: the latest.
pub open spec fn image_id(entries: Seq<(String, String)>, image: Seq<char>) -> Option<Seq<char>>
    decreases entries.len(),
{
    if entries.len() == 0 {
        None
    } else if entries.last().0@ == image {
        Some(entries.last().1@)
    } else {
        image_id(entries.drop_last(), image)
    }
}

impl ImageCache {
    pub fn new() -> (r: Self)
        ensures
            r.entries@.len() == 0,
            forall|image: Seq<char>| image_id(r.entries@, image) is None,
    {
        ImageCache { entries: Vec::new() }
    }

    /// The id on record for `image`, if it has been looked up.
    pub fn get(&self, image: &str) -> (r: Option<String>)
        ensures
            text_view(r) == image_id(self.entries@, image@),
    {
        let mut n: usize = self.entries.len();
        proof {
            assert(self.entries@.take(n as int) =~= self.entries@);
        }
        while n > 0
            invariant
                n <= self.entries@.len(),
                image_id(self.entries@.take(n as int), image@) == image_id(self.entries@, image@),
            decreases n,
        {
            proof {
                assert(self.entries@.take(n as int).drop_last() =~= self.entries@.take(n - 1));
                assert(self.entries@.take(n as int).last() == self.entries@[n - 1]);
            }
            if same_text(self.entries[n - 1].0.as_str(), image) {
                return Some(self.entries[n - 1].1.clone());
            }
            n -= 1;
        }
        None
    }

    /// Puts the id of `image` on record.
    pub fn insert(&mut self, image: &str, id: &str)
        ensures
            forall|other: Seq<char>| #[trigger]
                image_id(final(self).entries@, other) == (if other == image@ {
                    Some(id@)
                } else {
                    image_id(old(self).entries@, other)
                }),
    {
        let ghost before = self.entries@;
        self.entries.push((image.to_owned(), id.to_owned()));
        proof {
            assert(self.entries@.drop_last() =~= before);
        }
    }
}

/// The id of an image that was inspected: it has to have one.
pub fn inspected_image_id(id: Option<String>) -> (r: Result<String, String>)
    ensures
        match (r, id) {
            (Ok(found), Some(id)) => found == id,
            (Err(message), None) => message@ == "Docker returned an image without an ID"@,
            _ => false,
        },
{
    match id {
        Some(id) => Ok(id),
        None => Err("Docker returned an image without an ID".to_owned()),
    }
}

/// A container that carries the labels of managed workers counts as managed,
/// so that whatever was created can be replaced.
pub proof fn created_containers_are_managed(info: ContainerInfo, labels: Vec<(String, String)>)
    requires
        info.labels == Some(labels),
        labels@.len() == 3,
        labels@[0].0@ == "io.maqistor.managed"@,
        labels@[0].1@ == "true"@,
    ensures
        is_managed(info),
{
    let told = info.labels->Some_0@;
    assert(label_at(told, "io.maqistor.managed"@, "true"@, 0));
}

/// Whether a container is left as it is, replaced, or kept out of reach is read
/// off what the daemon tells of it. It is left as it is exactly if it runs the
/// image that is wanted and each entry that is wanted is in its environment.
pub proof fn outdated_containers_differ(info: ContainerInfo, image: Seq<char>, env: Seq<Seq<char>>)
    ensures
        !is_outdated(info, image, env) <==> {
            &&& info.image is Some
            &&& info.image->Some_0@ == image
            &&& match info.env {
                Some(have) => forall|i: int|
                    0 <= i < env.len() ==> texts(have@).contains(#[trigger] env[i]),
                None => env.len() == 0,
            }
        },
        is_managed(info) <==> info.labels is Some && exists|k: int|
            0 <= k < info.labels->Some_0@.len() && (#[trigger] info.labels->Some_0@[k]).0@
                == "io.maqistor.managed"@ && info.labels->Some_0@[k].1@ == "true"@,
{
    if info.env is None && env.len() > 0 {
        assert(!env_of(info).contains(env[0]));
    }
    if is_managed(info) {
        let k = choose|k: int|
            label_at(info.labels->Some_0@, "io.maqistor.managed"@, "true"@, k);
        assert(info.labels->Some_0@[k].0@ == "io.maqistor.managed"@);
    }
    if info.labels is Some && exists|k: int|
        0 <= k < info.labels->Some_0@.len() && (#[trigger] info.labels->Some_0@[k]).0@
            == "io.maqistor.managed"@ && info.labels->Some_0@[k].1@ == "true"@ {
        let k = choose|k: int|
            0 <= k < info.labels->Some_0@.len() && (#[trigger] info.labels->Some_0@[k]).0@
                == "io.maqistor.managed"@ && info.labels->Some_0@[k].1@ == "true"@;
        assert(label_at(info.labels->Some_0@, "io.maqistor.managed"@, "true"@, k));
    }
}

/// A daemon is reached over its local socket where no endpoint is given;
/// otherwise as the scheme of the endpoint says, and never without TLS where
/// any part of TLS is configured.
pub proof fn endpoints_say_how_to_connect(
    endpoint: Seq<char>,
    ca: Option<Seq<char>>,
    cert: Option<Seq<char>>,
    key: Option<Seq<char>>,
    host: HostKind,
)
    ensures
        connection_of(None, ca, cert, key, host) == Ok::<DockerConnectionView, Seq<char>>(
            DockerConnectionView::LocalDefaults,
        ),
        ({
            let tcp = begins_with(endpoint, "tcp://"@) || begins_with(endpoint, "http://"@)
                || begins_with(endpoint, "https://"@);
            let unix = begins_with(endpoint, "unix://"@);
            let pipe = begins_with(endpoint, "npipe://"@);
            match connection_of(Some(endpoint), ca, cert, key, host) {
                Ok(DockerConnectionView::LocalDefaults) => false,
                Ok(DockerConnectionView::UnixSocket(to)) => unix && host == HostKind::Unix && to
                    == endpoint,
                Ok(DockerConnectionView::NamedPipe(to)) => pipe && host == HostKind::Windows && to
                    == endpoint,
                Ok(DockerConnectionView::Tls(to, ca_path, cert_path, key_path)) => {
                    &&& tcp
                    &&& to == endpoint
                    &&& ca == Some(ca_path)
                    &&& cert == Some(cert_path)
                    &&& key == Some(key_path)
                },
                Ok(DockerConnectionView::Http(to)) => tcp && to == endpoint && ca is None
                    && cert is None && key is None,
                Err(message) => {
                    ||| unix && host != HostKind::Unix && message
                        == "unix:// Docker endpoints are only supported on Unix hosts"@
                    ||| pipe && host != HostKind::Windows && message
                        == "npipe:// Docker endpoints are only supported on Windows hosts"@
                    ||| tcp && !(ca is Some && cert is Some && key is Some) && !(ca is None && cert
                        is None && key is None) && message
                        == "docker TLS requires ca_cert_path, cert_path, and key_path together"@
                    ||| !tcp && !unix && !pipe && message == "unsupported docker endpoint scheme: "@
                        + endpoint
                },
            }
        }),
{
}

/// A container is named after its queue and its ordinal, with nothing in the
/// name of the queue but ASCII letters, digits and hyphens. Replicas of one
/// queue have names of their own.
pub proof fn replicas_have_their_own_names(queue: Seq<char>, ordinal: int, other: int)
    requires
        0 <= ordinal,
        0 <= other,
    ensures
        sanitized(queue).len() == queue.len(),
        forall|i: int|
            0 <= i < queue.len() ==> {
                let c = queue[i];
                let plain = '0' <= c <= '9' || 'A' <= c <= 'Z' || 'a' <= c <= 'z';
                #[trigger] sanitized(queue)[i] == (if plain {
                    c
                } else {
                    '-'
                })
            },
        container_name_of(queue, ordinal) == "maqistor-"@ + sanitized(queue) + "-"@ + decimal(
            ordinal as nat,
        ),
        container_name_of(queue, ordinal) == container_name_of(queue, other) ==> ordinal == other,
{
    let stem = "maqistor-"@ + sanitized(queue) + "-"@;
    let a = container_name_of(queue, ordinal);
    let b = container_name_of(queue, other);
    crate::text::digits_spell_the_number(ordinal as nat);
    crate::text::digits_spell_the_number(other as nat);
    assert(a.skip(stem.len() as int) =~= decimal(ordinal as nat));
    assert(b.skip(stem.len() as int) =~= decimal(other as nat));
}

/// A reconciliation goes through every replica of every queue once, and
/// through nothing else.
pub proof fn every_replica_is_wanted_once(queues: Seq<ManagedQueue>)
    ensures
        forall|queue: int, ordinal: int|
            #![trigger desired_replicas(queues).contains((queue, ordinal))]
            desired_replicas(queues).contains((queue, ordinal)) <==> 0 <= queue < queues.len()
                && 0 <= ordinal < queues[queue].replicas,
        forall|i: int, j: int|
            0 <= i < j < desired_replicas(queues).len() ==> (#[trigger] desired_replicas(
                queues,
            )[i]).0 < (#[trigger] desired_replicas(queues)[j]).0 || desired_replicas(queues)[i].0
                == desired_replicas(queues)[j].0 && desired_replicas(queues)[i].1
                < desired_replicas(queues)[j].1,
    decreases queues.len(),
{
    let all = desired_replicas(queues);
    if queues.len() == 0 {
        assert forall|queue: int, ordinal: int|
            #![trigger all.contains((queue, ordinal))]
            !all.contains((queue, ordinal)) by {}
    } else {
        let fewer = queues.drop_last();
        every_replica_is_wanted_once(fewer);
        let before = desired_replicas(fewer);
        let last = queues.len() - 1;
        let own = Seq::new(queues.last().replicas as nat, |ordinal: int| (last, ordinal));
        assert(all == before + own);
        assert forall|i: int| 0 <= i < before.len() implies (#[trigger] before[i]).0 < last by {
            assert(before.contains((before[i].0, before[i].1)));
        }
        assert forall|queue: int, ordinal: int|
            #![trigger all.contains((queue, ordinal))]
            all.contains((queue, ordinal)) <==> 0 <= queue < queues.len() && 0 <= ordinal
                < queues[queue].replicas by {
            if all.contains((queue, ordinal)) {
                let i = choose|i: int| 0 <= i < all.len() && all[i] == (queue, ordinal);
                if i < before.len() {
                    assert(before[i] == (queue, ordinal));
                    assert(before.contains((queue, ordinal)));
                } else {
                    assert(own[i - before.len()] == (queue, ordinal));
                }
            }
            if 0 <= queue < queues.len() && 0 <= ordinal < queues[queue].replicas {
                if queue < last {
                    assert(fewer[queue] == queues[queue]);
                    assert(before.contains((queue, ordinal)));
                    let i = choose|i: int| 0 <= i < before.len() && before[i] == (queue, ordinal);
                    assert(all[i] == (queue, ordinal));
                } else {
                    assert(all[before.len() + ordinal] == (queue, ordinal));
                }
            }
        }
        assert forall|i: int, j: int| 0 <= i < j < all.len() implies (#[trigger] all[i]).0 < (
        #[trigger] all[j]).0 || all[i].0 == all[j].0 && all[i].1 < all[j].1 by {
            if j < before.len() {
                assert(all[i] == before[i] && all[j] == before[j]);
            } else if i < before.len() {
                assert(all[i] == before[i]);
            }
        }
    }
}

/// A container that was created for a replica is known again as managed, and
/// its labels tell its queue and its ordinal.
pub proof fn created_containers_are_known_again(
    info: ContainerInfo,
    labels: Vec<(String, String)>,
    queue: Seq<char>,
    ordinal: int,
)
    requires
        info.labels == Some(labels),
        marks(labels@, queue, ordinal),
        ordinal >= 0,
    ensures
        is_managed(info),
        labels@[1].1@ == queue,
        crate::text::spelled(labels@[2].1@) == ordinal,
{
    created_containers_are_managed(info, labels);
    crate::text::digits_spell_the_number(ordinal as nat);
}

} // verus!
