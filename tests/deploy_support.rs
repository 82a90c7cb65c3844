use lambda_deploy::{build_args, build_volume_name, choose_credentials, BuildOptions, CommandExt, CredentialSource};

fn opts(use_build_volume: bool, keep_debug_info: bool, env: Vec<&str>) -> BuildOptions {
    BuildOptions {
        use_build_volume,
        keep_debug_info,
        env: env.into_iter().map(|e| e.to_string()).collect(),
        docker_image: "softprops/lambda-rust:latest".to_string(),
    }
}

#[test]
fn volume_name() {
    assert_eq!(build_volume_name("myproj"), "rust-build-volume-myproj");
}

#[test]
fn args_with_registry() {
    let args = build_args("/home/p", "/home/.cargo/registry", "rust-build-volume-p", &opts(false, false, vec![]));
    assert_eq!(
        args,
        vec![
            "run",
            "--rm",
            "-v",
            "/home/p:/code",
            "-v",
            "/home/.cargo/registry:/root/.cargo/registry",
            "softprops/lambda-rust:latest",
        ]
    );
}

#[test]
fn args_with_volume_debug_and_env() {
    let args = build_args(
        "/p",
        "/r",
        "rust-build-volume-p",
        &opts(true, true, vec!["RUSTFLAGS=-Ztime-passes", "A=1"]),
    );
    assert_eq!(
        args,
        vec![
            "run",
            "--rm",
            "-v",
            "/p:/code",
            "-v",
            "rust-build-volume-p:/build-volume",
            "-v",
            "rust-build-volume-p:/root/.cargo/registry",
            "-e",
            "DEBUGINFO=1",
            "-e",
            "RUSTFLAGS=-Ztime-passes",
            "-e",
            "A=1",
            "softprops/lambda-rust:latest",
        ]
    );
}

#[test]
fn credentials_choice() {
    let s = |x: &str| Some(x.to_string());
    match choose_credentials(s("AK"), s("SK"), s("dev")) {
        CredentialSource::Static { access_key, secret_key } => {
            assert_eq!((access_key.as_str(), secret_key.as_str()), ("AK", "SK"))
        }
        _ => panic!("expected a key pair"),
    }
    match choose_credentials(s("AK"), None, s("dev")) {
        CredentialSource::Profile(p) => assert_eq!(p, "dev"),
        _ => panic!("expected a profile"),
    }
    assert!(matches!(choose_credentials(None, s("SK"), None), CredentialSource::Ambient));
}

#[test]
fn command_status() {
    assert!(Some(true).status_bool());
    assert!(!Some(false).status_bool());
    assert!(!None::<bool>.status_bool());
}
