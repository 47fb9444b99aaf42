use audioipc::context_params::{apply_start_names, default_context_params};

#[test]
fn default_names() {
    let p = default_context_params();
    assert_eq!(p.context_name, b"AudioIPC Server".to_vec());
    assert_eq!(p.backend_name, None);
}

#[test]
fn start_names_replace_given_ones() {
    let mut p = default_context_params();
    apply_start_names(&mut p, None, Some(b"pulse".to_vec()));
    assert_eq!(p.context_name, b"AudioIPC Server".to_vec());
    assert_eq!(p.backend_name, Some(b"pulse".to_vec()));
    apply_start_names(&mut p, Some(b"Firefox".to_vec()), None);
    assert_eq!(p.context_name, b"Firefox".to_vec());
    assert_eq!(p.backend_name, Some(b"pulse".to_vec()));
}
