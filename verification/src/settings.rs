//! Settings of the render server, and how the server and client configuration files turn into
//! them.

use vstd::prelude::*;

use crate::project::{AppState, HttpEndpoints};
use crate::text::{natural_to_chars, push_chars};

verus! {

/// Settings of the image generation workflow.
#[derive(Clone, Copy, Debug, PartialEq, Eq, Structural)]
pub struct WorkflowSettings {
    pub dump_workflow: bool,
    pub enable_depthpro: bool,
}

impl Default for WorkflowSettings {
    fn default() -> (w: WorkflowSettings)
        ensures
            w == (WorkflowSettings { dump_workflow: false, enable_depthpro: true }),
    {
        WorkflowSettings { dump_workflow: false, enable_depthpro: true }
    }
}

/// The address of the local ComfyUI server that is used unless configured otherwise.
pub open spec fn default_comfyui_address() -> Seq<char> {
    "http://127.0.0.1:8188"@
}

/// Settings of the render server.
pub struct Settings {
    pub http_port: Option<u16>,
    pub logger: bool,
    pub comfyui_address: String,
    /// Passed as `Bearer {comfyui_authentication}` in the `Authorization` header
    /// to the ComfyUI server.
    pub comfyui_authentication: Option<String>,
    /// If true, the server will accept self-signed certificates from the ComfyUI server.
    pub comfyui_https_insecure: bool,
    pub workflow: WorkflowSettings,
}

impl Default for Settings {
    fn default() -> (s: Settings)
        ensures
            s.http_port is None,
            s.logger,
            s.comfyui_address@ == default_comfyui_address(),
            s.comfyui_authentication is None,
            !s.comfyui_https_insecure,
            s.workflow == (WorkflowSettings { dump_workflow: false, enable_depthpro: true }),
    {
        Settings {
            http_port: None,
            logger: true,
            comfyui_address: String::from_str("http://127.0.0.1:8188"),
            comfyui_authentication: None,
            comfyui_https_insecure: false,
            workflow: WorkflowSettings::default(),
        }
    }
}

/// The configuration file of the stand-alone server.
pub struct ServerConfig {
    pub http_port: Option<u16>,
    pub comfyui_address: String,
    pub comfyui_authentication: Option<String>,
    pub comfyui_https_insecure: bool,
    pub workflow_settings: WorkflowSettings,
}

impl Default for ServerConfig {
    fn default() -> (c: ServerConfig)
        ensures
            c.http_port is None,
            c.comfyui_address@ == default_comfyui_address(),
            c.comfyui_authentication is None,
            !c.comfyui_https_insecure,
            c.workflow_settings == (WorkflowSettings { dump_workflow: false, enable_depthpro: true }),
    {
        ServerConfig {
            http_port: None,
            comfyui_address: String::from_str("http://127.0.0.1:8188"),
            comfyui_authentication: None,
            comfyui_https_insecure: false,
            workflow_settings: WorkflowSettings::default(),
        }
    }
}

/// The listen-server part of the client's configuration file.
pub struct ListenServer {
    pub comfyui_address: String,
    pub comfyui_authentication: Option<String>,
    pub comfyui_https_insecure: bool,
    pub workflow_settings: WorkflowSettings,
}

impl Default for ListenServer {
    fn default() -> (s: ListenServer)
        ensures
            s.comfyui_address@ == default_comfyui_address(),
            s.comfyui_authentication is None,
            !s.comfyui_https_insecure,
            s.workflow_settings == (WorkflowSettings { dump_workflow: false, enable_depthpro: true }),
    {
        ListenServer {
            comfyui_address: String::from_str("http://127.0.0.1:8188"),
            comfyui_authentication: None,
            comfyui_https_insecure: false,
            workflow_settings: WorkflowSettings::default(),
        }
    }
}

/// The client's configuration file.
pub struct ClientConfig {
    pub width: u32,
    pub height: u32,
    pub server: Option<ListenServer>,
}

impl Default for ClientConfig {
    fn default() -> (c: ClientConfig)
        ensures
            c.width == 1280,
            c.height == 720,
            (c.server matches Some(s) && s.comfyui_address@ == default_comfyui_address()
                && s.comfyui_authentication is None && !s.comfyui_https_insecure
                && s.workflow_settings == (WorkflowSettings {
                dump_workflow: false,
                enable_depthpro: true,
            })),
    {
        ClientConfig { width: 1280, height: 720, server: Some(ListenServer::default()) }
    }
}

impl ClientConfig {
    /// The size of the window.
    pub fn size(&self) -> (s: (u32, u32))
        ensures
            s == (self.width, self.height),
    {
        (self.width, self.height)
    }
}

fn clone_authentication(a: &Option<String>) -> (r: Option<String>)
    ensures
        match (a, r) {
            (Some(x), Some(y)) => x@ == y@,
            (None, None) => true,
            _ => false,
        },
{
    match a {
        Some(s) => Some(s.clone()),
        None => None,
    }
}

impl Settings {
    /// The settings the stand-alone server runs with: those of its configuration file, with
    /// logging on.
    pub fn from_server_config(config: &ServerConfig) -> (s: Settings)
        ensures
            s.http_port == config.http_port,
            s.logger,
            s.comfyui_address@ == config.comfyui_address@,
            match (s.comfyui_authentication, config.comfyui_authentication) {
                (Some(x), Some(y)) => x@ == y@,
                (None, None) => true,
                _ => false,
            },
            s.comfyui_https_insecure == config.comfyui_https_insecure,
            s.workflow == config.workflow_settings,
    {
        Settings {
            http_port: config.http_port,
            logger: true,
            comfyui_address: config.comfyui_address.clone(),
            comfyui_authentication: clone_authentication(&config.comfyui_authentication),
            comfyui_https_insecure: config.comfyui_https_insecure,
            workflow: config.workflow_settings,
        }
    }

    /// The settings of the server that the client starts itself: those of its configuration
    /// file, without logging, on the default port.
    pub fn for_listen_server(server: &ListenServer) -> (s: Settings)
        ensures
            s.http_port is None,
            !s.logger,
            s.comfyui_address@ == server.comfyui_address@,
            match (s.comfyui_authentication, server.comfyui_authentication) {
                (Some(x), Some(y)) => x@ == y@,
                (None, None) => true,
                _ => false,
            },
            s.comfyui_https_insecure == server.comfyui_https_insecure,
            s.workflow == server.workflow_settings,
    {
        Settings {
            http_port: None,
            logger: false,
            comfyui_address: server.comfyui_address.clone(),
            comfyui_authentication: clone_authentication(&server.comfyui_authentication),
            comfyui_https_insecure: server.comfyui_https_insecure,
            workflow: server.workflow_settings,
        }
    }
}

/// Where the client sends its render requests: a server it starts itself, or a remote one.
pub enum Backend {
    Host,
    Server(String),
}

/// Why a backend argument was refused: the message names the argument.
pub struct InvalidBackend(pub String);

pub open spec fn starts_with_http(s: Seq<char>) -> bool {
    s.len() >= 4 && s.subrange(0, 4) == "http"@
}

impl Backend {
    /// Reads the `--backend` argument: `host`, or the URL of a server (anything starting with
    /// `http`).
    pub fn from_str(s: &str) -> (r: Result<Backend, InvalidBackend>)
        ensures
            s@ == "host"@ ==> r matches Ok(Backend::Host),
            s@ != "host"@ && starts_with_http(s@) ==> (r matches Ok(Backend::Server(u)) && u@
                == s@),
            s@ != "host"@ && !starts_with_http(s@) ==> (r matches Err(InvalidBackend(m)) && m@
                == "Invalid backend: "@ + s@),
    {
        let chars = crate::text::chars_of(s);
        let host = crate::text::chars_of("host");
        let http = crate::text::chars_of("http");
        proof {
            reveal_strlit("host");
            reveal_strlit("http");
        }
        if chars_equal(&chars, &host) {
            return Ok(Backend::Host);
        }
        if chars.len() >= 4 && chars_equal_prefix(&chars, &http) {
            assert(s@.subrange(0, 4) =~= "http"@);
            return Ok(Backend::Server(String::from_str(s)));
        }
        proof {
            if s@.len() >= 4 && s@.subrange(0, 4) == "http"@ {
                assert(chars@.subrange(0, 4) =~= http@);
            }
        }
        Err(InvalidBackend(String::from_str("Invalid backend: ").concat(s)))
    }
}

fn chars_equal(a: &Vec<char>, b: &Vec<char>) -> (r: bool)
    ensures
        r == (a@ == b@),
{
    if a.len() != b.len() {
        return false;
    }
    let mut i: usize = 0;
    while i < a.len()
        invariant
            a.len() == b.len(),
            i <= a.len(),
            forall|k: int| 0 <= k < i ==> a@[k] == b@[k],
        decreases a.len() - i,
    {
        if a[i] != b[i] {
            return false;
        }
        i += 1;
    }
    assert(a@ =~= b@);
    true
}

/// Whether `b` is a prefix of `a`.
fn chars_equal_prefix(a: &Vec<char>, b: &Vec<char>) -> (r: bool)
    requires
        b.len() <= a.len(),
    ensures
        r == (a@.subrange(0, b.len() as int) == b@),
{
    let mut i: usize = 0;
    while i < b.len()
        invariant
            b.len() <= a.len(),
            i <= b.len(),
            forall|k: int| 0 <= k < i ==> a@[k] == b@[k],
        decreases b.len() - i,
    {
        if a[i] != b[i] {
            assert(a@.subrange(0, b.len() as int)[i as int] != b@[i as int]);
            return false;
        }
        i += 1;
    }
    assert(a@.subrange(0, b.len() as int) =~= b@);
    true
}

impl AppState {
    /// The state that pressing the swap key switches to.
    pub fn toggled(&self) -> (s: AppState)
        ensures
            s == match self {
                AppState::Edit => AppState::Play,
                AppState::Play => AppState::Edit,
            },
    {
        match self {
            AppState::Edit => AppState::Play,
            AppState::Play => AppState::Edit,
        }
    }
}


impl Settings {
    /// The port the server listens on: the configured one, else `default_port`.
    pub fn listen_port(&self, default_port: u16) -> (p: u16)
        ensures
            p == match self.http_port {
                Some(port) => port,
                None => default_port,
            },
    {
        match self.http_port {
            Some(port) => port,
            None => default_port,
        }
    }
}

/// The value of the `Authorization` header sent to the ComfyUI server: `Bearer {token}`.
pub fn authorization_value(token: &str) -> (v: String)
    ensures
        v@ == "Bearer "@ + token@,
{
    String::from_str("Bearer ").concat(token)
}

/// How the client starts: where it sends render requests, the settings of the server it runs
/// itself (if any), and the size of its window.
pub struct StartupPlan {
    pub endpoints: HttpEndpoints,
    pub listen_server: Option<Settings>,
    pub window_size: (u32, u32),
}

/// The address of a server on this machine at `port`: `http://127.0.0.1:{port}`.
pub open spec fn local_server(port: u16) -> Seq<char> {
    "http://127.0.0.1:"@ + crate::text::natural_digits(port as nat)
}

/// Plans the client's start: a remote backend is used as it is; the host backend runs a server
/// on this machine, with the listen-server settings of the configuration, reached on
/// `default_port`. The window takes the size given on the command line, else the configured
/// one.
pub fn plan_startup(
    backend: &Backend,
    listen_server: &Option<ListenServer>,
    default_port: u16,
    config_size: (u32, u32),
    arg_size: Option<(u32, u32)>,
) -> (plan: StartupPlan)
    requires
        backend is Host ==> listen_server is Some,
    ensures
        plan.window_size == match arg_size {
            Some(size) => size,
            None => config_size,
        },
        match backend {
            Backend::Server(url) => plan.endpoints.render_url@ == url@ + "/prism/render"@
                && plan.listen_server is None,
            Backend::Host => plan.endpoints.render_url@ == local_server(default_port)
                + "/prism/render"@ && (plan.listen_server matches Some(s) && listen_server matches Some(l)
                && s.http_port is None && !s.logger && s.comfyui_address@ == l.comfyui_address@
                && s.comfyui_https_insecure == l.comfyui_https_insecure && s.workflow
                == l.workflow_settings && match (s.comfyui_authentication, l.comfyui_authentication) {
                (Some(x), Some(y)) => x@ == y@,
                (None, None) => true,
                _ => false,
            }),
        },
{
    let window_size = match arg_size {
        Some(size) => size,
        None => config_size,
    };
    match backend {
        Backend::Server(url) => StartupPlan {
            endpoints: HttpEndpoints::from_server(url.as_str()),
            listen_server: None,
            window_size,
        },
        Backend::Host => {
            let settings = match listen_server {
                Some(l) => Settings::for_listen_server(l),
                None => Settings::default(),
            };
            let mut server = String::from_str("http://127.0.0.1:");
            proof {
                reveal_strlit("http://127.0.0.1:");
            }
            push_chars(&mut server, &natural_to_chars(default_port as u64));
            StartupPlan {
                endpoints: HttpEndpoints::from_server(server.as_str()),
                listen_server: Some(settings),
                window_size,
            }
        },
    }
}

} // verus!
