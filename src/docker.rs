use vstd::prelude::*;
use vstd::string::*;

verus! {

/// The build settings that shape the container run.
pub struct BuildOptions {
    /// Keep build outputs and the registry in a managed volume.
    pub use_build_volume: bool,
    /// Ask the build to retain debug info.
    pub keep_debug_info: bool,
    /// `NAME=value` settings passed into the container.
    pub env: Vec<String>,
    /// The image that builds the project.
    pub docker_image: String,
}

pub open spec fn volume_name_of(dir_name: Seq<char>) -> Seq<char> {
    "rust-build-volume-"@ + dir_name
}

/// The `-e` flag pairs for each environment setting, in order.
pub open spec fn env_flags(env: Seq<Seq<char>>) -> Seq<Seq<char>>
    decreases env.len(),
{
    if env.len() == 0 {
        Seq::empty()
    } else {
        env_flags(env.drop_last()) + seq!["-e"@, env.last()]
    }
}

pub open spec fn volume_flags(
    use_build_volume: bool,
    volume: Seq<char>,
    cargo_registry: Seq<char>,
) -> Seq<Seq<char>> {
    if use_build_volume {
        seq![
            "-v"@,
            volume + ":/build-volume"@,
            "-v"@,
            volume + ":/root/.cargo/registry"@,
        ]
    } else {
        seq!["-v"@, cargo_registry + ":/root/.cargo/registry"@]
    }
}

pub open spec fn debug_flags(keep_debug_info: bool) -> Seq<Seq<char>> {
    if keep_debug_info {
        seq!["-e"@, "DEBUGINFO=1"@]
    } else {
        Seq::empty()
    }
}

/// The arguments of the container run: the project mounted at `/code`, the cargo
/// registry (or the build volume), the debug and environment settings, then the image.
pub open spec fn build_args_of(
    project_dir: Seq<char>,
    cargo_registry: Seq<char>,
    volume: Seq<char>,
    opt: BuildOptions,
) -> Seq<Seq<char>> {
    seq!["run"@, "--rm"@, "-v"@, project_dir + ":/code"@] + volume_flags(
        opt.use_build_volume,
        volume,
        cargo_registry,
    ) + debug_flags(opt.keep_debug_info) + env_flags(opt.env@.map_values(|e: String| e@))
        + seq![opt.docker_image@]
}

/// The name of the managed build volume for a project directory named `dir_name`.
pub fn build_volume_name(dir_name: &str) -> (r: String)
    ensures
        r@ == volume_name_of(dir_name@),
{
    String::from_str("rust-build-volume-").concat(dir_name)
}

fn joined(a: &str, b: &str) -> (r: String)
    ensures
        r@ == a@ + b@,
{
    String::from_str(a).concat(b)
}

/// The command-line arguments for the container that builds the project.
/// `volume` is the managed build volume's name, used only when `opt` asks for it.
pub fn build_args(project_dir: &str, cargo_registry: &str, volume: &str, opt: &BuildOptions) -> (r:
    Vec<String>)
    ensures
        r@.map_values(|a: String| a@) == build_args_of(project_dir@, cargo_registry@, volume@, *opt),
{
    let mut args: Vec<String> = vec![
        String::from_str("run"),
        String::from_str("--rm"),
        String::from_str("-v"),
        joined(project_dir, ":/code"),
    ];
    if opt.use_build_volume {
        args.push(String::from_str("-v"));
        args.push(joined(volume, ":/build-volume"));
        args.push(String::from_str("-v"));
        args.push(joined(volume, ":/root/.cargo/registry"));
    } else {
        args.push(String::from_str("-v"));
        args.push(joined(cargo_registry, ":/root/.cargo/registry"));
    }
    if opt.keep_debug_info {
        args.push(String::from_str("-e"));
        args.push(String::from_str("DEBUGINFO=1"));
    }
    let ghost head = args@.map_values(|a: String| a@);
    let ghost env = opt.env@.map_values(|e: String| e@);
    let mut i: usize = 0;
    while i < opt.env.len()
        invariant
            i <= opt.env@.len(),
            env == opt.env@.map_values(|e: String| e@),
            args@.map_values(|a: String| a@) == head + env_flags(env.take(i as int)),
        decreases opt.env@.len() - i,
    {
        assert(env.take(i as int + 1).drop_last() =~= env.take(i as int));
        let ghost prev = args@.map_values(|a: String| a@);
        let flag = String::from_str("-e");
        let value = opt.env[i].clone();
        assert(value@ == env.take(i as int + 1).last());
        args.push(flag);
        args.push(value);
        assert(args@.map_values(|a: String| a@) =~= prev + seq!["-e"@, value@]);
        assert(args@.map_values(|a: String| a@) =~= head + env_flags(env.take(i as int + 1)));
        i += 1;
    }
    assert(env.take(env.len() as int) =~= env);
    let ghost body = args@.map_values(|a: String| a@);
    let image = opt.docker_image.clone();
    args.push(image);
    assert(args@.map_values(|a: String| a@) =~= body.push(opt.docker_image@));
    assert(args@.map_values(|a: String| a@) =~= build_args_of(
        project_dir@,
        cargo_registry@,
        volume@,
        *opt,
    ));
    args
}

} // verus!
