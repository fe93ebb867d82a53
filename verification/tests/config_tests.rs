use wshttp::config::config::Config;

#[test]
fn config1() {
    let args = vec!["".to_string(), "8080".to_string(), "/".to_string()];
    let config = Config::build(args, "/srv");
    assert_eq!(config.port, 8080);
    assert_eq!(config.path, "/");
}

#[test]
fn default() {
    let args = vec!["".to_string(), "".to_string(), "".to_string()];
    let config = Config::build(args, "/srv");
    assert_eq!(config.port, 8080);
    assert_eq!(config.path, "");
}

#[test]
fn port() {
    let args = vec!["".to_string(), "1111".to_string(), "".to_string()];
    let config = Config::build(args, "/srv");
    assert_eq!(config.port, 1111);
    assert_eq!(config.path, "");
}

#[test]
fn port0() {
    let args = vec!["".to_string(), "0".to_string(), "".to_string()];
    let config = Config::build(args, "/srv");
    assert_eq!(config.port, 8080);
    assert_eq!(config.path, "");
}

fn build(port: &str, path: &str, cwd: &str) -> Config {
    Config::build(vec!["prog".to_string(), port.to_string(), path.to_string()], cwd)
}

#[test]
fn config_port_forms() {
    assert_eq!(build("+80", "", "/").port, 80);
    assert_eq!(build("65535", "", "/").port, 65535);
    assert_eq!(build("65536", "", "/").port, 8080);
    assert_eq!(build("-1", "", "/").port, 8080);
    assert_eq!(build("+", "", "/").port, 8080);
    assert_eq!(build("8o8o", "", "/").port, 8080);
    assert_eq!(build("0009", "", "/").port, 9);
    assert_eq!(build("99999999999999999999", "", "/").port, 8080);
}

#[test]
fn config_relative_path_joins_cwd() {
    assert_eq!(build("1", "www", "/home/me").path, "/home/me/www");
    assert_eq!(build("1", "www", "/home/me/").path, "/home/me/www");
    assert_eq!(build("1", "./www", ".").path, "././www");
    assert_eq!(build("1", "/var/www", "/home/me").path, "/var/www");
}
