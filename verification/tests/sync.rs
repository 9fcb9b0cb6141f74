use tulipix::double::Double;
use tulipix::sync::account_toggle::{can_enable, get_mode, set_mode, Mode};
use tulipix::sync::audit_log::{csv_escape, to_csv, AuditEntry};
use tulipix::sync::engine::{advance_watermark, build_batches, is_pull_due, read_watermark, ChangeRecord};
use tulipix::sync::hex::hex;
use tulipix::sync::invitations::{
    accept, effective_state, expires_at, may_accept, may_revoke, mint_token, Invitation, INVITE_TTL_SECS,
};
use tulipix::sync::oauth::{
    authorize_url, b64url, enc, parse_callback, pkce_challenge, CallbackError, Provider,
};
use tulipix::sync::remote_stream::{
    authz_header, issue_token, issue_token_at, now_secs, parse_authz_header, AuthzError, ManifestVariant,
    StreamManifest, TokenStore, WanProbe,
};
use tulipix::sync::shared_albums::can_edit;
use tulipix::sync::totp::{
    base32_decode, consume_backup_code, hash_code, hmac_sha256, spent, totp, verify, BackupCode,
};

#[test]
fn pull_timer_and_batching() {
    assert!(is_pull_due(1000, 1060));
    assert!(!is_pull_due(1000, 1059));
    let outbox: Vec<ChangeRecord> = (0..1100)
        .map(|i| ChangeRecord { section: "photos".into(), item_id: i, op: "upsert".into(), rev: i })
        .collect();
    let b = build_batches(&outbox);
    assert_eq!(b.len(), 3); // 500 + 500 + 100
    assert_eq!(b[0].len(), 500);
    assert_eq!(b[2].len(), 100);
    let flat: Vec<i64> = b.iter().flat_map(|x| x.iter().map(|c| c.item_id)).collect();
    assert_eq!(flat, (0..1100).collect::<Vec<i64>>());
    assert!(build_batches(&[]).is_empty());
}

#[test]
fn watermark_is_monotonic() {
    assert_eq!(read_watermark(None), 0);
    assert_eq!(advance_watermark(None, 100), (100, "100".to_string()));
    assert_eq!(advance_watermark(Some("100"), 50), (100, "100".to_string()));
    assert_eq!(read_watermark(Some("100")), 100);
    assert_eq!(read_watermark(Some("not a number")), 0);
}

#[test]
fn defaults_local_and_requires_signin() {
    assert_eq!(get_mode(None), Mode::LocalOnly);
    let (m, kept) = set_mode(Mode::Account, false);
    assert_eq!(m, Mode::LocalOnly);
    assert_eq!(get_mode(Some(kept)), Mode::LocalOnly);
    let (m, kept) = set_mode(Mode::Account, true);
    assert_eq!(m, Mode::Account);
    assert_eq!(get_mode(Some(kept)), Mode::Account);
    assert!(can_enable(true) && !can_enable(false));
}

#[test]
fn audit_rows_are_escaped() {
    let rows = vec![
        AuditEntry {
            id: 2,
            actor: "admin".into(),
            event: "delete".into(),
            target: Some("file.jpg".into()),
            detail: Some("reason, with comma".into()),
            at: 200,
        },
        AuditEntry { id: 1, actor: "admin".into(), event: "invite".into(), target: None, detail: None, at: 100 },
    ];
    let csv = to_csv(&rows);
    assert!(csv.starts_with("id,actor,event,target,detail,at\n"));
    assert!(csv.contains("\"reason, with comma\""));
    assert_eq!(
        csv,
        "id,actor,event,target,detail,at\n2,admin,delete,file.jpg,\"reason, with comma\",200\n1,admin,invite,,,100\n"
    );
    assert_eq!(csv_escape("say \"hi\""), "\"say \"\"hi\"\"\"");
    assert_eq!(csv_escape("plain"), "plain");
}

#[test]
fn token_non_guessable() {
    assert_ne!(mint_token("a@x", "s1"), mint_token("a@x", "s2"));
    assert_eq!(mint_token("a@x", "s1").len(), 32);
}

#[test]
fn invite_accept_and_expiry() {
    let now = now_secs();
    let tok = mint_token("a@x.com", "salt");
    let mut rows = vec![Invitation { token: tok.clone(), state: "pending".into(), expires: expires_at(now) }];
    let read = |r: &Invitation, at: i64| effective_state(&r.state, r.expires, at);
    // Past the end nothing is accepted, and it reads as expired.
    assert!(!accept(&mut rows, &tok, now + INVITE_TTL_SECS + 1));
    assert_eq!(read(&rows[0], now + INVITE_TTL_SECS + 1), "expired");
    assert!(accept(&mut rows, &tok, now));
    assert_eq!(read(&rows[0], now), "accepted");
    assert!(!accept(&mut rows, &tok, now));
}

#[test]
fn invitations_expire_and_are_accepted_once() {
    let made = 1_000_000;
    let ends = expires_at(made);
    assert_eq!(ends, made + INVITE_TTL_SECS);
    assert!(!may_accept("pending", ends, ends + 1));
    assert_eq!(effective_state("pending", ends, ends + 1), "expired");
    assert!(may_accept("pending", ends, made));
    assert_eq!(effective_state("accepted", ends, made), "accepted");
    assert!(!may_accept("accepted", ends, made));
    assert!(may_revoke("pending"));
    assert!(!may_revoke("accepted"));
}

#[test]
fn a_token_is_accepted_once_and_touches_no_other_row() {
    let row = |token: &str, state: &str, expires: i64| Invitation { token: token.into(), state: state.into(), expires };
    let mut rows = vec![
        row("a", "pending", 100),
        row("b", "pending", 100),
        row("c", "revoked", 100),
        row("d", "pending", 50),
    ];
    let states = |rows: &Vec<Invitation>| rows.iter().map(|r| r.state.clone()).collect::<Vec<_>>();
    assert!(!accept(&mut rows, "nobody", 60));
    assert!(!accept(&mut rows, "c", 60), "revoked");
    assert!(!accept(&mut rows, "d", 60), "too late");
    assert_eq!(states(&rows), ["pending", "pending", "revoked", "pending"]);
    assert!(accept(&mut rows, "b", 60));
    assert_eq!(states(&rows), ["pending", "accepted", "revoked", "pending"]);
    assert!(!accept(&mut rows, "b", 60), "a second time");
    assert_eq!(rows.iter().map(|r| r.expires).collect::<Vec<_>>(), [100, 100, 100, 50]);
}

/// Reads comma-separated text as a spreadsheet does.
fn records(csv: &str) -> Vec<Vec<String>> {
    let (mut all, mut fields, mut field) = (Vec::new(), Vec::new(), String::new());
    let mut quoted = false;
    let mut chars = csv.chars().peekable();
    while let Some(c) = chars.next() {
        match c {
            '"' if quoted && chars.peek() == Some(&'"') => {
                chars.next();
                field.push('"');
            }
            '"' => quoted = !quoted,
            ',' if !quoted => fields.push(std::mem::take(&mut field)),
            '\n' if !quoted => {
                fields.push(std::mem::take(&mut field));
                all.push(std::mem::take(&mut fields));
            }
            c => field.push(c),
        }
    }
    assert!(fields.is_empty() && field.is_empty() && !quoted);
    all
}

#[test]
fn a_written_log_reads_back() {
    let entry = |id: i64, actor: &str, target: Option<&str>, detail: Option<&str>| AuditEntry {
        id,
        actor: actor.into(),
        event: "e,v\"e".into(),
        target: target.map(|t| t.into()),
        detail: detail.map(|t| t.into()),
        at: -7,
    };
    let rows = vec![
        entry(i64::MIN, "a\nb", None, Some("\"\"")),
        entry(3, "", Some("x, \"y\"\r\nz"), Some("")),
        entry(i64::MAX, ",", Some("plain"), Some("\n")),
    ];
    let back = records(&to_csv(&rows));
    assert_eq!(back[0], ["id", "actor", "event", "target", "detail", "at"]);
    assert_eq!(back.len(), 4);
    assert_eq!(back[1], ["-9223372036854775808", "a\nb", "e,v\"e", "", "\"\"", "-7"]);
    assert_eq!(back[2], ["3", "", "e,v\"e", "x, \"y\"\r\nz", "", "-7"]);
    assert_eq!(back[3], ["9223372036854775807", ",", "e,v\"e", "plain", "\n", "-7"]);
}

#[test]
fn authorize_url_has_pkce_and_deep_link() {
    let url = authorize_url(Provider::Google, "cid", "xyz", "verifier123");
    assert!(url.contains("code_challenge_method=S256"));
    assert!(url.contains("redirect_uri=tulipix%3A%2F%2Fauth"));
    assert!(url.contains("state=xyz"));
    assert!(url.contains(&pkce_challenge("verifier123")));
}

#[test]
fn callback_state_must_match() {
    let cb = parse_callback("tulipix://auth?code=abc&state=xyz", "xyz").unwrap();
    assert_eq!(cb.code, "abc");
    assert!(parse_callback("tulipix://auth?code=abc&state=evil", "xyz").is_err());
    assert!(parse_callback("tulipix://auth?state=xyz", "xyz").is_err()); // no code
}

#[test]
fn a_callback_says_what_is_wrong_with_it() {
    assert_eq!(parse_callback("tulipix://auth", "xyz").unwrap_err(), CallbackError::NoQuery);
    assert_eq!(parse_callback("tulipix://auth?state=xyz", "xyz").unwrap_err(), CallbackError::MissingCode);
    assert_eq!(parse_callback("tulipix://auth?code=abc", "xyz").unwrap_err(), CallbackError::MissingState);
    assert_eq!(
        parse_callback("tulipix://auth?code=abc&state=evil", "xyz").unwrap_err(),
        CallbackError::StateMismatch
    );
    assert!(!CallbackError::StateMismatch.message().is_empty());
}

#[test]
fn pkce_is_deterministic() {
    assert_eq!(pkce_challenge("verifier123"), pkce_challenge("verifier123"));
    assert_ne!(pkce_challenge("a"), pkce_challenge("b"));
}

#[test]
fn a_known_challenge_comes_out() {
    // The pair that the protocol itself gives as its example.
    assert_eq!(
        pkce_challenge("dBjftJeZ4CVP-mB92K27uhbUJU1p1r_wW1gFWFOEjXk"),
        "E9Melhoa2OwvFrEMTJguCHaoeK1t8URWbuGJSstw-cM"
    );
    assert_eq!(b64url(b"any carnal pleas"), "YW55IGNhcm5hbCBwbGVhcw");
    assert_eq!(b64url(b""), "");
    assert_eq!(enc("a b/ü~"), "a%20b%2F%C3%BC~");
}

fn fixture_manifest() -> StreamManifest {
    StreamManifest {
        item_id: 1,
        duration_s: Double::from_bits(7200.0f64.to_bits()).unwrap(),
        required_cap: "sync.remote-stream".into(),
        variants: vec![
            ManifestVariant {
                label: "480p".into(),
                width: 854,
                height: 480,
                bitrate_bps: 1_200_000,
                playlist_url: "https://x/480.m3u8".into(),
            },
            ManifestVariant {
                label: "1080p".into(),
                width: 1920,
                height: 1080,
                bitrate_bps: 6_000_000,
                playlist_url: "https://x/1080.m3u8".into(),
            },
        ],
    }
}

#[test]
fn token_is_valid_within_window() {
    let entropy = [0xABu8; 32];
    let t = issue_token("{}", 1, 42, 3600, &entropy);
    assert!(t.is_valid(t.issued_at + 10));
    assert!(!t.is_valid(t.expires_at + 1));
}

#[test]
fn token_ttl_floor_60s() {
    let entropy = [0u8; 32];
    let t = issue_token("{}", 1, 42, 10, &entropy);
    assert!(t.expires_at - t.issued_at >= 60);
}

#[test]
fn token_manifest_sha_changes_with_manifest() {
    let entropy = [0u8; 32];
    let a = issue_token(r#"{"a":1}"#, 1, 42, 600, &entropy);
    let b = issue_token(r#"{"a":2}"#, 1, 42, 600, &entropy);
    assert_ne!(a.manifest_sha256, b.manifest_sha256);
}

#[test]
fn a_manifest_is_known_by_its_digest() {
    let t = issue_token_at("", 1, 42, 600, &[0u8; 32], 1_000);
    assert_eq!(t.manifest_sha256, "e3b0c44298fc1c149afbf4c8996fb92427ae41e4649b934ca495991b7852b855");
    assert_eq!((t.issued_at, t.expires_at), (1_000, 1_600));
    assert_eq!(t.token, "0".repeat(64));
    assert_eq!(hex(&[0x0f, 0xa0]), "0fa0");
    assert!(now_secs() > 1_600_000_000);
}

#[test]
fn token_store_insert_revoke_lookup() {
    let mut s = TokenStore::default();
    let t = issue_token("{}", 1, 1, 600, &[1u8; 32]);
    let tok = t.token.clone();
    s.insert(t);
    assert!(s.lookup(&tok).is_some());
    assert!(s.revoke(&tok));
    assert!(s.lookup(&tok).is_none());
    assert!(!s.revoke("doesnotexist"));
}

#[test]
fn purge_drops_expired() {
    let mut s = TokenStore::default();
    let mut t = issue_token("{}", 1, 1, 600, &[1u8; 32]);
    t.expires_at = 100;
    s.insert(t);
    let dropped = s.purge_expired(500);
    assert_eq!(dropped, 1);
}

#[test]
fn wan_probe_harmonic_mean() {
    let mut p = WanProbe::new(4);
    p.record(1_000_000, 1_000);
    p.record(1_000_000, 5_000);
    let est = p.estimate_bps().unwrap();
    assert!(est > 1_000_000 && est < 4_000_000);
}

#[test]
fn a_default_probe_keeps_one_sample() {
    let mut p = WanProbe::default();
    assert!(p.estimate_bps().is_none());
    p.record(1_000_000, 1_000);
    p.record(500_000, 1_000);
    let mut q = WanProbe::new(1);
    q.record(500_000, 1_000);
    assert_eq!(p.estimate_bps(), q.estimate_bps());
    assert!(TokenStore::default().lookup("").is_none());
}

#[test]
fn the_probe_keeps_its_newest_samples() {
    assert!(WanProbe::new(4).estimate_bps().is_none());
    let mut p = WanProbe::new(1);
    p.record(1_000_000, 1_000);
    p.record(500_000, 1_000);
    let f = 1.0 / (1.0 / 4_000_000.0f64);
    assert_eq!(p.estimate_bps(), Some(f as i64));
}

#[test]
fn manifest_picks_variant_with_headroom() {
    let m = fixture_manifest();
    let v = m.pick_variant(10_000_000).unwrap();
    assert_eq!(v.label, "1080p");
    let v = m.pick_variant(2_000_000).unwrap();
    assert_eq!(v.label, "480p");
    assert!(m.pick_variant(1_000_000).is_none(), "no rung fits");
}

#[test]
fn authz_header_round_trip() {
    let t = issue_token("{}", 7, 99, 600, &[0x01u8; 32]);
    let header = authz_header(&t);
    assert!(header.starts_with("Bearer "));
    let parsed = parse_authz_header(&header).unwrap();
    assert_eq!(parsed, t.token);
}

#[test]
fn parse_authz_rejects_bad_format() {
    assert!(parse_authz_header("Basic abc").is_err());
    assert_eq!(parse_authz_header("Basic abc").unwrap_err(), AuthzError::MissingBearer);
}

#[test]
fn base32_roundtrip_known() {
    // "JBSWY3DPEHPK3PXP" = "Hello!\xde\xad\xbe\xef" prefix bytes
    let bytes = base32_decode("JBSWY3DP").unwrap();
    assert_eq!(&bytes[..5], b"Hello");
    assert_eq!(base32_decode("JBSWY3DPEHPK3PXP").unwrap(), b"Hello!\xde\xad\xbe\xef");
    assert!(base32_decode("0189!").is_none());
}

#[test]
fn totp_verifies_within_window() {
    let secret = base32_decode("JBSWY3DPEHPK3PXP").unwrap();
    let t = 1_700_000_000;
    let code = totp(&secret, t, 30, 6);
    assert_eq!(code.len(), 6);
    assert!(verify(&secret, &code, t, 30, 6, 1));
    // a step away still ok with window=1
    assert!(verify(&secret, &code, t + 30, 30, 6, 1));
    // far away fails
    assert!(!verify(&secret, &code, t + 600, 30, 6, 1));
}

#[test]
fn known_codes_come_out() {
    assert_eq!(
        hex(&hmac_sha256(b"Jefe", b"what do ya want for nothing?")),
        "5bdcc146bf60754e6a042426089575c75a003f089d2739839dec58b964ec3843"
    );
    assert_eq!(totp(b"12345678901234567890123456789012", 59, 30, 8), "46119246");
    assert_eq!(totp(b"12345678901234567890123456789012", 1111111109, 30, 8), "68084774");
}

#[test]
fn backup_codes_single_use() {
    let mut codes: Vec<BackupCode> = ["aaa-bbb", "ccc-ddd"]
        .iter()
        .map(|c| BackupCode { user_id: "u1".into(), code_hash: hash_code(c), used: false })
        .collect();
    assert!(consume_backup_code(&mut codes, "u1", "aaa-bbb"));
    assert!(!consume_backup_code(&mut codes, "u1", "aaa-bbb"));
    assert!(!consume_backup_code(&mut codes, "u1", "zzz-zzz"));
    assert!(!consume_backup_code(&mut codes, "u2", "ccc-ddd"));
    assert!(consume_backup_code(&mut codes, "u1", "ccc-ddd"));
}

#[test]
fn a_backup_code_that_was_stored_twice_is_good_once() {
    let mut codes: Vec<BackupCode> = ["aaa-bbb", "ccc-ddd", "aaa-bbb"]
        .iter()
        .map(|c| BackupCode { user_id: "u1".into(), code_hash: hash_code(c), used: false })
        .collect();
    assert!(consume_backup_code(&mut codes, "u1", "aaa-bbb"));
    assert_eq!(codes.iter().map(|c| c.used).collect::<Vec<_>>(), [true, false, true]);
    assert!(!consume_backup_code(&mut codes, "u1", "aaa-bbb"));
    assert!(!spent(0));
    assert!(spent(1));
    assert!(spent(2));
}

#[test]
fn only_owners_and_editors_edit() {
    assert!(can_edit(Some("owner@x"), None, "owner@x"));
    assert!(can_edit(Some("owner@x"), Some("editor"), "ed@x"));
    assert!(!can_edit(Some("owner@x"), Some("viewer"), "vi@x"));
    assert!(!can_edit(Some("owner@x"), None, "nobody@x"));
}
