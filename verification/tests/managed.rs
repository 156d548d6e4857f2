use maqistor::dispatcher::docker::{
    connect_docker, container_labels, container_name, inspected_image_id, plan_container,
    reconcile_order, ContainerAction, ContainerInfo, DockerConnectOptions, DockerConnection,
    HostKind, ImageCache, ManagedQueue,
};

fn queue(name: &str, replicas: u32) -> ManagedQueue {
    ManagedQueue {
        name: name.into(),
        image: "img:1".into(),
        replicas,
        env: vec!["A=1".into()],
    }
}

fn at(endpoint: &str) -> DockerConnectOptions {
    DockerConnectOptions {
        endpoint: Some(endpoint.into()),
        ..DockerConnectOptions::default()
    }
}

#[test]
fn endpoints_choose_the_connection() {
    assert_eq!(
        connect_docker(&DockerConnectOptions::default(), HostKind::Unix),
        Ok(DockerConnection::LocalDefaults)
    );
    assert_eq!(
        connect_docker(&at("unix:///s"), HostKind::Unix),
        Ok(DockerConnection::UnixSocket {
            endpoint: "unix:///s".into()
        })
    );
    assert_eq!(
        connect_docker(&at("unix:///s"), HostKind::Windows),
        Err("unix:// Docker endpoints are only supported on Unix hosts".into())
    );
    assert_eq!(
        connect_docker(&at("npipe:////p"), HostKind::Windows),
        Ok(DockerConnection::NamedPipe {
            endpoint: "npipe:////p".into()
        })
    );
    assert_eq!(
        connect_docker(&at("npipe:////p"), HostKind::Other),
        Err("npipe:// Docker endpoints are only supported on Windows hosts".into())
    );
    assert_eq!(
        connect_docker(&at("http://h:1"), HostKind::Unix),
        Ok(DockerConnection::Http {
            endpoint: "http://h:1".into()
        })
    );
    assert_eq!(
        connect_docker(&at("ssh://h"), HostKind::Unix),
        Err("unsupported docker endpoint scheme: ssh://h".into())
    );
    let mut tls = at("tcp://h:1");
    tls.ca_cert_path = Some("ca".into());
    assert!(connect_docker(&tls, HostKind::Unix).is_err());
    tls.cert_path = Some("cert".into());
    tls.key_path = Some("key".into());
    assert_eq!(
        connect_docker(&tls, HostKind::Unix),
        Ok(DockerConnection::Tls {
            endpoint: "tcp://h:1".into(),
            ca: "ca".into(),
            cert: "cert".into(),
            key: "key".into()
        })
    );
}

#[test]
fn containers_are_named_after_their_queue() {
    assert_eq!(container_name("e_mail.v2", 3), "maqistor-e-mail-v2-3");
    let labels = container_labels("email", 2);
    assert_eq!(labels[1], ("io.maqistor.queue".into(), "email".into()));
    assert_eq!(labels[2], ("io.maqistor.replica".into(), "2".into()));
}

#[test]
fn outdated_containers_are_replaced_if_they_are_ours() {
    let queue = queue("email", 1);
    assert_eq!(
        plan_container(&queue, 0, "sha", None),
        Ok(ContainerAction::Create)
    );
    let mut info = ContainerInfo {
        image: Some("sha".into()),
        env: Some(vec!["PATH=/".into(), "A=1".into()]),
        labels: None,
    };
    assert_eq!(
        plan_container(&queue, 0, "sha", Some(info.clone())),
        Ok(ContainerAction::Start)
    );
    info.env = None;
    assert_eq!(
        plan_container(&queue, 0, "sha", Some(info.clone())),
        Err("refusing to replace non-Maqistor container maqistor-email-0".into())
    );
    info.labels = Some(container_labels("email", 0));
    assert_eq!(
        plan_container(&queue, 0, "sha", Some(info)),
        Ok(ContainerAction::Replace)
    );
}

#[test]
fn every_replica_is_seen_to() {
    let order = reconcile_order(&vec![queue("a", 2), queue("b", 0), queue("c", 1)]);
    assert_eq!(order.len(), 3);
    assert_eq!(order[0].0, 0);
    assert_eq!(order[2].0, 2);
}

#[test]
fn images_are_remembered() {
    let mut cache = ImageCache::new();
    assert_eq!(cache.get("img"), None);
    cache.insert("img", "one");
    cache.insert("img", "two");
    assert_eq!(cache.get("img"), Some("two".into()));
    assert_eq!(inspected_image_id(Some("id".into())), Ok("id".into()));
    assert_eq!(
        inspected_image_id(None),
        Err("Docker returned an image without an ID".into())
    );
}
