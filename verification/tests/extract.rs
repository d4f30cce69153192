use promrail::versions::extract::{
    extract_from_chart, extract_from_kustomization, extract_from_values, parse_image_string,
    ChartDependency,
};

#[test]
fn test_parse_image_string() {
    assert_eq!(
        parse_image_string("nginx:1.25"),
        Some(("nginx".to_string(), "1.25".to_string()))
    );
    assert_eq!(
        parse_image_string("ghcr.io/home-operations/home-assistant:2026.3.1"),
        Some(("ghcr.io/home-operations/home-assistant".to_string(), "2026.3.1".to_string()))
    );
    assert_eq!(
        parse_image_string("ghcr.io/repo/image@sha256:abc123"),
        Some(("ghcr.io/repo/image".to_string(), "sha256:abc123".to_string()))
    );
}

#[test]
fn test_extract_from_kustomization() {
    let content = r#"
apiVersion: kustomize.config.k8s.io/v1beta1
kind: Kustomization
helmCharts:
  - name: postgres-operator
    version: 1.15.1
    repo: https://opensource.zalando.com/postgres-operator/charts/postgres-operator/
"#;
    let versions = extract_from_kustomization(content, "test.yaml");
    assert_eq!(versions.helm_charts.len(), 1);
    assert_eq!(versions.helm_charts[0].name, "postgres-operator");
    assert_eq!(versions.helm_charts[0].version, "1.15.1");
}

#[test]
fn test_extract_from_chart() {
    // The dependencies of:
    //   apiVersion: v2
    //   name: vault
    //   version: 0.0.0
    //   dependencies:
    //     - name: vault-operator
    //       version: 1.23.4
    //       repository: oci://ghcr.io/bank-vaults/helm-charts
    let dependencies = vec![ChartDependency {
        name: "vault-operator".to_string(),
        version: "1.23.4".to_string(),
        repository: "oci://ghcr.io/bank-vaults/helm-charts".to_string(),
    }];
    let versions = extract_from_chart(&dependencies, "Chart.yaml");
    assert_eq!(versions.helm_charts.len(), 1);
    assert_eq!(versions.helm_charts[0].name, "vault-operator");
    assert_eq!(versions.helm_charts[0].version, "1.23.4");
}

#[test]
fn test_extract_from_values() {
    let content = r#"
image:
  repository: ghcr.io/jellyfin/jellyfin
  tag: 10.11.6
controllers:
  main:
    containers:
      main:
        image:
          repository: ghcr.io/other/app
          tag: 1.2.3
"#;
    let versions = extract_from_values(content, "values.yaml");
    assert_eq!(versions.container_images.len(), 2);
}
