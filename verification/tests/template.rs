use sshcfg::config::template::{TemplateKind, parse_cli_name, template_infos};

#[test]
fn template_catalog_lists_all_kinds() {
    let names: Vec<_> = template_infos()
        .iter()
        .map(|item| item.kind.cli_name())
        .collect();
    assert_eq!(
        names,
        vec![
            TemplateKind::Embedded.cli_name(),
            TemplateKind::Legacy.cli_name(),
            TemplateKind::Vps.cli_name(),
            TemplateKind::Jump.cli_name(),
            TemplateKind::Forward.cli_name(),
        ]
    );
}

#[test]
fn parses_template_cli_names_case_insensitively() {
    assert_eq!(parse_cli_name("legacy"), Some(TemplateKind::Legacy));
    assert_eq!(parse_cli_name("EMBEDDED"), Some(TemplateKind::Embedded));
    assert_eq!(parse_cli_name("unknown"), None);
}
