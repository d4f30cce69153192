use promrail::versions::conflict::{
    check_component_conflicts, compare_versions, extract_image_path, extract_registry,
    normalize_repository_url, repositories_equal,
};
use promrail::versions::models::{
    ComponentVersions, ConflictKind, ContainerImageVersion, HelmChartVersion,
};

#[test]
fn test_compare_versions() {
    assert_eq!(compare_versions("1.15.1", "1.15.0"), Some(std::cmp::Ordering::Greater));
    assert_eq!(compare_versions("1.15.0", "1.15.1"), Some(std::cmp::Ordering::Less));
    assert_eq!(compare_versions("1.15.1", "1.15.1"), Some(std::cmp::Ordering::Equal));
    assert_eq!(compare_versions("2.0.0", "1.99.99"), Some(std::cmp::Ordering::Greater));
    assert_eq!(compare_versions("v1.0.0", "1.0.0"), Some(std::cmp::Ordering::Equal));
}

#[test]
fn test_normalize_repository_url() {
    assert_eq!(
        normalize_repository_url("https://grafana.github.io/helm-charts"),
        "grafana.github.io/helm-charts"
    );
    assert_eq!(
        normalize_repository_url("https://grafana.github.io/helm-charts/"),
        "grafana.github.io/helm-charts"
    );
    assert_eq!(normalize_repository_url("http://charts.example.com"), "charts.example.com");
    assert_eq!(normalize_repository_url("oci://ghcr.io/charts"), "ghcr.io/charts");
    assert_eq!(
        normalize_repository_url("https://GRAFANA.GITHUB.IO/helm-charts"),
        "grafana.github.io/helm-charts"
    );
}

#[test]
fn test_repositories_equal() {
    assert!(repositories_equal(
        "https://grafana.github.io/helm-charts",
        "https://grafana.github.io/helm-charts/"
    ));
    assert!(repositories_equal(
        "https://grafana.github.io/helm-charts",
        "http://grafana.github.io/helm-charts"
    ));
    assert!(!repositories_equal("https://grafana.github.io/helm-charts", "https://charts.loki.io"));
    assert!(!repositories_equal("oci://ghcr.io/charts", "https://ghcr.io/other-charts"));
}

#[test]
fn test_repository_change_detection() {
    let source = ComponentVersions {
        path: "system/loki".to_string(),
        helm_charts: vec![HelmChartVersion {
            name: "loki".to_string(),
            version: "5.0.0".to_string(),
            repository: Some("https://grafana.github.io/helm-charts".to_string()),
            source_file: "Chart.yaml".to_string(),
        }],
        container_images: vec![],
    };
    let dest = ComponentVersions {
        path: "system/loki".to_string(),
        helm_charts: vec![HelmChartVersion {
            name: "loki".to_string(),
            version: "2.9.0".to_string(),
            repository: Some("https://charts.loki.io".to_string()),
            source_file: "Chart.yaml".to_string(),
        }],
        container_images: vec![],
    };
    let mut conflicts = Vec::new();
    check_component_conflicts("system/loki", &source, &dest, &mut conflicts);
    assert!(conflicts.iter().any(|c| matches!(&c.kind, ConflictKind::RepositoryChange { .. })));
    let repo_conflict = conflicts
        .iter()
        .find(|c| matches!(&c.kind, ConflictKind::RepositoryChange { .. }))
        .unwrap();
    if let ConflictKind::RepositoryChange { chart_name, from_repo, to_repo } = &repo_conflict.kind {
        assert_eq!(chart_name, "loki");
        assert_eq!(from_repo, "https://charts.loki.io");
        assert_eq!(to_repo, "https://grafana.github.io/helm-charts");
    } else {
        panic!("Expected RepositoryChange");
    }
}

#[test]
fn test_extract_registry() {
    assert_eq!(extract_registry("ghcr.io/home-operations/app"), "ghcr.io");
    assert_eq!(extract_registry("docker.io/library/nginx"), "docker.io");
    assert_eq!(extract_registry("registry.example.com:5000/image"), "registry.example.com:5000");
    assert_eq!(extract_registry("localhost:5000/myimage"), "localhost:5000");
    assert_eq!(extract_registry("localhost/myimage"), "localhost");
    assert_eq!(extract_registry("nginx"), "docker.io");
    assert_eq!(extract_registry("library/nginx"), "docker.io");
    assert_eq!(extract_registry("myorg/myimage"), "docker.io");
}

#[test]
fn test_extract_image_path() {
    assert_eq!(extract_image_path("ghcr.io/grafana/loki"), "grafana/loki");
    assert_eq!(extract_image_path("docker.io/grafana/loki"), "grafana/loki");
    assert_eq!(extract_image_path("registry.example.com:5000/grafana/loki"), "grafana/loki");
    assert_eq!(extract_image_path("grafana/loki"), "grafana/loki");
    assert_eq!(extract_image_path("nginx"), "nginx");
    assert_eq!(extract_image_path("library/nginx"), "library/nginx");
}

#[test]
fn test_registry_change_detection() {
    let source = ComponentVersions {
        path: "system/loki".to_string(),
        helm_charts: vec![],
        container_images: vec![ContainerImageVersion {
            name: "ghcr.io/grafana/loki".to_string(),
            tag: "3.0.0".to_string(),
            source_file: "values.yaml".to_string(),
            json_path: "$.image.tag".to_string(),
        }],
    };
    let dest = ComponentVersions {
        path: "system/loki".to_string(),
        helm_charts: vec![],
        container_images: vec![ContainerImageVersion {
            name: "docker.io/grafana/loki".to_string(),
            tag: "2.9.0".to_string(),
            source_file: "values.yaml".to_string(),
            json_path: "$.image.tag".to_string(),
        }],
    };
    let mut conflicts = Vec::new();
    check_component_conflicts("system/loki", &source, &dest, &mut conflicts);
    assert!(conflicts.iter().any(|c| matches!(&c.kind, ConflictKind::RegistryChange { .. })));
    let registry_conflict = conflicts
        .iter()
        .find(|c| matches!(&c.kind, ConflictKind::RegistryChange { .. }))
        .unwrap();
    if let ConflictKind::RegistryChange { image_name, from_registry, to_registry } =
        &registry_conflict.kind
    {
        assert_eq!(image_name, "ghcr.io/grafana/loki");
        assert_eq!(from_registry, "docker.io");
        assert_eq!(to_registry, "ghcr.io");
    } else {
        panic!("Expected RegistryChange");
    }
    assert!(registry_conflict.details.contains("Registry change"));
    assert!(registry_conflict.details.contains("grafana/loki"));
}
