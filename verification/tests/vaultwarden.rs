//! Vaultwarden: env files, bw outputs, release tags, guest scripts.

use pxi_core::envfile::{
    admin_token, find_assignment, read_dotenv_key, read_env_value, read_plain_env_value,
};
use pxi_core::vaultwarden::{
    build_script, count_item_ids, domain_set_script, env_file, extract_field, first_line,
    gitlab_settings, gitlab_token_header, gitlab_update_confirmed, gitlab_variable_body,
    gitlab_variable_url, install_skipped, item_lookup_failed, key_preview, latest_release_url,
    login_failure_line, parse_latest_tag, rekey_script_path, rotation_commit_message,
    session_from_login, smtp_mailgun_script, unlock_session, web_vault_script, web_vault_url,
    upgrade_tag, TagError,
};

const ENV: &str = "# comment\n#VAULTWARDEN_URL=\"https://vw.example\"\nVAULTWARDEN_EMAIL=\nGITLAB_API_TOKEN=glpat\n  VAULTWARDEN_ADMIN_TOKEN = x\nVAULTWARDEN_ADMIN_TOKEN= tok \n";

#[test]
fn control_plane_env() {
    assert_eq!(read_env_value(ENV, "VAULTWARDEN_URL").as_deref(), Some("https://vw.example"));
    assert_eq!(read_env_value(ENV, "VAULTWARDEN_EMAIL"), None);
    assert_eq!(read_env_value(ENV, "MISSING"), None);
    assert_eq!(admin_token(ENV).as_deref(), Some("tok"));
    assert_eq!(find_assignment("A=1\nA=2", "A", false), Some("1"));
    let (token, url) = gitlab_settings(ENV);
    assert_eq!(token.as_deref(), Some("glpat"));
    assert_eq!(url, "http://10.0.50.63");
}

#[test]
fn host_env_and_dotenv_keys() {
    assert_eq!(read_plain_env_value("NAS_USER= \"admin\" \n", "NAS_USER").as_deref(), Some("admin"));
    assert_eq!(read_plain_env_value("#NAS_USER=x\n", "NAS_USER"), None);
    assert_eq!(read_plain_env_value("NAS_PASSWORD=\n", "NAS_PASSWORD").as_deref(), Some(""));
    let dotenv = "#/ header\nDOTENV_PUBLIC_KEY=\"02abc\"\nDOTENV_PRIVATE_KEY=\"ffee\"\n";
    assert_eq!(read_dotenv_key(dotenv, "DOTENV_PRIVATE_KEY").as_deref(), Some("ffee"));
    assert_eq!(read_dotenv_key(dotenv, "DOTENV_PUBLIC_KEY").as_deref(), Some("02abc"));
}

#[test]
fn item_fields() {
    let json = r#"{"id":"1","fields":[{"name":"OTHER","value":"o"},{"name":"DOTENV_PRIVATE_KEY","value":"secret","type":1}]}"#;
    assert_eq!(extract_field(json, "DOTENV_PRIVATE_KEY").as_deref(), Some("secret"));
    assert_eq!(extract_field(json, "OTHER").as_deref(), Some("o"));
    assert_eq!(extract_field(json, "NOPE"), None);
    let null_first = r#"{"fields":[{"name":"A","value":null,"type":1},{"name":"B","value":"vb","type":1}]}"#;
    assert_eq!(extract_field(null_first, "A"), None);
    assert_eq!(extract_field(null_first, "B").as_deref(), Some("vb"));
    let no_value = r#"{"fields":[{"name":"A","type":1},{"name":"B","value":"vb"}]}"#;
    assert_eq!(extract_field(no_value, "A"), None);
    assert_eq!(extract_field(r#"{"name":"A","value":"a}b"}"#, "A").as_deref(), Some("a}b"));
    let brace_in_note = r#"{"fields":[{"name":"A","note":"x}y","value":"v"},{"name":"B","value":"w"}]}"#;
    assert_eq!(extract_field(brace_in_note, "A").as_deref(), Some("v"));
    let escaped = r#"{"fields":[{"name":"A","note":"q\"}","value":"v"}]}"#;
    assert_eq!(extract_field(escaped, "A").as_deref(), Some("v"));
    let nested = r#"{"fields":[{"name":"A","meta":{"k":1},"value":"v"}]}"#;
    assert_eq!(extract_field(nested, "A").as_deref(), Some("v"));
    assert!(item_lookup_failed("  \n"));
    assert!(item_lookup_failed(r#"{"message":"Not found."}"#));
    assert!(!item_lookup_failed(json));
    assert_eq!(count_item_ids(r#"[{"id":"a"},{"id":"b"}]"#), 2);
    assert_eq!(count_item_ids("[]"), 0);
}

#[test]
fn release_tags() {
    let body = "{\n  \"url\": \"x\",\n  \"tag_name\":   \"1.35.7\",\n  \"name\": \"r\"\n}";
    assert_eq!(parse_latest_tag(body).unwrap(), "1.35.7");
    assert_eq!(parse_latest_tag("{}"), Err(TagError::MissingKey));
    assert_eq!(parse_latest_tag("\"tag_name\""), Err(TagError::MissingColon));
    assert_eq!(parse_latest_tag("\"tag_name\": 5"), Err(TagError::MissingOpenQuote));
    assert_eq!(parse_latest_tag("\"tag_name\": \"v1"), Err(TagError::MissingCloseQuote));
    assert_eq!(latest_release_url("dani-garcia/vaultwarden"), "https://api.github.com/repos/dani-garcia/vaultwarden/releases/latest");
}

#[test]
fn bw_outputs() {
    let key = "a".repeat(40) + "+/==";
    let out = format!("? Master password: [hidden]\n{key}\n");
    assert_eq!(session_from_login(&out, "warning\n"), key);
    assert_eq!(session_from_login("short\n", "Invalid master password.\n"), "");
    assert_eq!(session_from_login("", &format!("  {key}  \n")), key);
    assert_eq!(login_failure_line("first\nlast error\n\n  \n"), "last error");
    assert_eq!(login_failure_line(""), "(no stderr)");
    assert_eq!(first_line("  2024.7.2\nextra\n"), "2024.7.2");
    assert_eq!(unlock_session(" s3ss \n").as_deref(), Some("s3ss"));
    assert_eq!(unlock_session("\n"), None);
    assert!(install_skipped("yes\n", false));
    assert!(!install_skipped("yes\n", true));
    assert!(!install_skipped("no\n", false));
    assert_eq!(key_preview("0123456789abcdefXYZ", 16), Some("0123456789abcdef"));
    assert_eq!(key_preview("short", 16), None);
    assert_eq!(key_preview("가나다", 1), None);
}

#[test]
fn guest_files_and_scripts() {
    let env = env_file("TOKEN", "https://vw.example");
    assert!(env.starts_with("# Generated by `pxi run vaultwarden install-env`\nADMIN_TOKEN=TOKEN\nROCKET_ADDRESS=0.0.0.0\n"));
    assert!(env.contains("\nDOMAIN=https://vw.example\n# SMTP"));
    assert!(env.ends_with("SMTP_FROM_NAME=Vaultwarden\n"));
    assert!(domain_set_script("https://d").contains("c[\"domain\"] = \"https://d\"\n"));
    let smtp = smtp_mailgun_script("10.0.50.122", 2526, "devops@ranode.net");
    assert!(smtp.contains("c[\"smtp_host\"] = \"10.0.50.122\"\nc[\"smtp_port\"] = 2526\n"));
    assert!(smtp.contains("c[\"smtp_from\"] = \"devops@ranode.net\"\n"));
    let build = build_script("1.35.7", "sqlite");
    assert!(build.contains("git clone --depth 1 --branch 1.35.7 https://github.com/dani-garcia/vaultwarden.git \"$SRC\"\n"));
    assert!(build.contains("cargo build --release --features sqlite --no-default-features\n"));
    assert!(build.contains("awk '{print $1}'"));
    let url = web_vault_url("v2026.2.0");
    assert_eq!(url, "https://github.com/dani-garcia/bw_web_builds/releases/download/v2026.2.0/bw_web_v2026.2.0.tar.gz");
    assert!(web_vault_script(&url).contains(&format!("curl -fsSL \"{url}\" | tar")));
    assert!(web_vault_script(&url).contains("|| { echo \"web-vault tarball missing index.html\"; exit 1; }"));
}

#[test]
fn key_rotation_pieces() {
    assert_eq!(gitlab_variable_url("http://gl"), "http://gl/api/v4/groups/283/variables/DOTENV_PRIVATE_KEY");
    assert_eq!(gitlab_token_header("t"), "PRIVATE-TOKEN: t");
    assert_eq!(gitlab_variable_body("k"), r#"{"key":"DOTENV_PRIVATE_KEY","value":"k","masked":true,"protected":false}"#);
    assert!(gitlab_update_confirmed(r#"{"key":"DOTENV_PRIVATE_KEY","value":"k"}"#));
    assert!(!gitlab_update_confirmed(r#"{"message":"401"}"#));
    assert_eq!(rekey_script_path("/repo"), "/repo/control-plane/scripts/rekey.sh");
    assert_eq!(rotation_commit_message("2025-01-01"), "chore: dotenvx 마스터 키 로테이션 2025-01-01");
}

#[test]
fn upgrade_tags() {
    assert_eq!(upgrade_tag(Some("1.35.7"), Some("1.36.0")), "1.35.7");
    assert_eq!(upgrade_tag(None, Some("1.36.0")), "1.36.0");
    assert_eq!(upgrade_tag(None, None), "?");
}
