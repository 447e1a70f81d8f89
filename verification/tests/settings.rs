use prismata::project::{AppState, HttpEndpoints, ProjectName};
use prismata::replay_buffer::ReplayBuffer;
use prismata::settings::{
    authorization_value, plan_startup, Backend, ClientConfig, InvalidBackend, ListenServer,
    ServerConfig, Settings, WorkflowSettings,
};

#[test]
fn default_settings() {
    let s = Settings::default();
    assert_eq!(s.http_port, None);
    assert!(s.logger);
    assert_eq!(s.comfyui_address, "http://127.0.0.1:8188");
    assert_eq!(s.comfyui_authentication, None);
    assert!(!s.comfyui_https_insecure);
    assert_eq!(s.workflow, WorkflowSettings { dump_workflow: false, enable_depthpro: true });
}

#[test]
fn default_configs() {
    let c = ClientConfig::default();
    assert_eq!(c.size(), (1280, 720));
    let server = c.server.unwrap();
    assert_eq!(server.comfyui_address, "http://127.0.0.1:8188");
    let s = ServerConfig::default();
    assert_eq!(s.http_port, None);
    assert_eq!(s.workflow_settings, WorkflowSettings::default());
}

#[test]
fn server_settings_from_config() {
    let config = ServerConfig {
        http_port: Some(9000),
        comfyui_address: "http://gpu:8188".to_string(),
        comfyui_authentication: Some("token".to_string()),
        comfyui_https_insecure: true,
        workflow_settings: WorkflowSettings { dump_workflow: true, enable_depthpro: false },
    };
    let s = Settings::from_server_config(&config);
    assert_eq!(s.http_port, Some(9000));
    assert!(s.logger);
    assert_eq!(s.comfyui_address, "http://gpu:8188");
    assert_eq!(s.comfyui_authentication, Some("token".to_string()));
    assert!(s.comfyui_https_insecure);
    assert_eq!(s.workflow, config.workflow_settings);
}

#[test]
fn listen_server_settings() {
    let server = ListenServer {
        comfyui_address: "https://remote".to_string(),
        comfyui_authentication: None,
        comfyui_https_insecure: false,
        workflow_settings: WorkflowSettings::default(),
    };
    let s = Settings::for_listen_server(&server);
    assert_eq!(s.http_port, None);
    assert!(!s.logger);
    assert_eq!(s.comfyui_address, "https://remote");
    assert_eq!(s.comfyui_authentication, None);
}

#[test]
fn backend_argument() {
    assert!(matches!(Backend::from_str("host"), Ok(Backend::Host)));
    match Backend::from_str("http://localhost:8080") {
        Ok(Backend::Server(url)) => assert_eq!(url, "http://localhost:8080"),
        _ => panic!("expected a server"),
    }
    match Backend::from_str("ftp://x") {
        Err(InvalidBackend(message)) => assert_eq!(message, "Invalid backend: ftp://x"),
        _ => panic!("expected an error"),
    }
    assert!(Backend::from_str("hosts").is_err());
    assert!(Backend::from_str("").is_err());
}

#[test]
fn project_file_names() {
    assert_eq!(ProjectName::default().0, "New Project");
    assert_eq!(ProjectName::default().as_filename(), "New Project.prismata");
    assert_eq!(ProjectName("a/b: c?".to_string()).as_filename(), "a_b_ c_.prismata");
    assert_eq!(ProjectName("Über 2".to_string()).as_filename(), "Über 2.prismata");
}

#[test]
fn render_endpoint() {
    assert_eq!(HttpEndpoints::from_server("http://x:1").render_url, "http://x:1/prism/render");
}

#[test]
fn app_states() {
    assert_eq!(AppState::default(), AppState::Edit);
    assert_eq!(AppState::Edit.toggled(), AppState::Play);
    assert_eq!(AppState::Play.toggled(), AppState::Edit);
    assert_eq!(AppState::Play.to_string(), "Play");
}

#[test]
fn replay_buffer_evicts_the_oldest() {
    let mut b = ReplayBuffer::new(3);
    assert_eq!(b.len(), 0);
    for t in 1..=5 {
        b.push(t);
    }
    assert_eq!(b.len(), 3);
    for _ in 0..20 {
        let batch = b.random_batch(2).unwrap();
        assert_eq!(batch.len(), 2);
        assert!(batch.iter().all(|&&t| (3..=5).contains(&t)));
    }
    assert!(b.random_batch(4).is_none());
}

#[test]
fn replay_buffer_batches_need_enough_transitions() {
    let mut b = ReplayBuffer::new(10);
    b.push('a');
    assert!(b.random_batch(2).is_none());
    let batch = b.random_batch(1).unwrap();
    assert_eq!(*batch[0], 'a');
    assert_eq!(b.random_batch(0).unwrap().len(), 0);
}

#[test]
fn replay_buffer_batch_from_indices_picks_stored_transitions() {
    let mut b = ReplayBuffer::new(3);
    for t in 1..=5 {
        b.push(t);
    }
    let batch = b.batch_from_indices(&vec![2, 0, 0, 1]);
    let got: Vec<i32> = batch.iter().map(|t| **t).collect();
    assert_eq!(got, vec![5, 3, 3, 4]);
}

#[test]
fn replay_buffer_draws_reach_every_stored_transition() {
    let mut b = ReplayBuffer::new(4);
    for t in 0..4 {
        b.push(t);
    }
    let mut seen = [false; 4];
    for _ in 0..200 {
        for t in b.random_batch(4).unwrap() {
            seen[*t as usize] = true;
        }
    }
    assert!(seen.iter().all(|s| *s));
}

#[test]
fn server_headers_and_ports() {
    assert_eq!(authorization_value("abc"), "Bearer abc");
    let mut s = Settings::default();
    assert_eq!(s.listen_port(7000), 7000);
    s.http_port = Some(9001);
    assert_eq!(s.listen_port(7000), 9001);
}

#[test]
fn startup_plans() {
    let plan = plan_startup(&Backend::Server("http://remote:9".to_string()), &None, 7000, (800, 600), None);
    assert_eq!(plan.endpoints.render_url, "http://remote:9/prism/render");
    assert!(plan.listen_server.is_none());
    assert_eq!(plan.window_size, (800, 600));
    let listen = Some(ListenServer::default());
    let plan = plan_startup(&Backend::Host, &listen, 7000, (800, 600), Some((1024, 768)));
    assert_eq!(plan.endpoints.render_url, "http://127.0.0.1:7000/prism/render");
    let settings = plan.listen_server.unwrap();
    assert!(!settings.logger);
    assert_eq!(settings.http_port, None);
    assert_eq!(settings.comfyui_address, "http://127.0.0.1:8188");
    assert_eq!(plan.window_size, (1024, 768));
}
