use stemplate::{Host, Template, Variables};


#[test]
fn once() {
    let test: &str = "Hello, ${name}, nice to meet you.";
    let mut args = Variables::new();
    args.insert("name", "Charles");

    let s = Template::new(test).render(&args, &Host::new());

    assert_eq!(s, "Hello, Charles, nice to meet you.");
}

#[test]
fn beginning() {
    let test: &str = "${plural capitalized food} taste good.";
    let mut args = Variables::new();
    args.insert("plural capitalized food", "Apples");

    let s = Template::new(test).render(&args, &Host::new());

    assert_eq!(s, "Apples taste good.");
}

#[test]
fn only() {
    let test: &str = "${why}";
    let mut args = Variables::new();
    args.insert("why", "would you ever do this");

    let s = Template::new(test).render(&args, &Host::new());

    assert_eq!(s, "would you ever do this");
}

#[test]
fn end() {
    let test: &str = "I really love ${something}";
    let mut args = Variables::new();
    args.insert("something", "programming");

    let s = Template::new(test).render(&args, &Host::new());

    assert_eq!(s, "I really love programming");
}

#[test]
fn empty() {
    let test: &str = "";
    let args = Variables::new();

    let s = Template::new(test).render(&args, &Host::new());

    assert_eq!(s, "");
}

#[test]
fn two() {
    let test: &str = "Hello, ${name}. You remind me of another ${name}.";
    let mut args = Variables::new();
    args.insert("name", "Charles");

    let s = Template::new(test).render(&args, &Host::new());

    assert_eq!(s, "Hello, Charles. You remind me of another Charles.");
}

#[test]
fn two_values() {
    let test: &str = "Hello, ${#name}. You remind me of another ${#name}.";
    let mut args = Variables::new();
    args.insert("name", "Charles|Harry");

    let s = Template::new(test).render(&args, &Host::new());

    assert_eq!(s, "Hello, Charles. You remind me of another Harry.");
}

#[test]
fn twice() {
    let test: &str = "${name}, why are you writing code at ${time} again?";
    let mut args = Variables::new();
    args.insert("name", "Charles");
    args.insert("time", "2 AM");

    let s = Template::new(test).render(&args, &Host::new());

    assert_eq!(s, "Charles, why are you writing code at 2 AM again?");
}

#[test]
fn default_empty() {
    let test: &str = "${name:-Henry}, why are you writing code at ${time} again?";
    let mut args = Variables::new();
    args.insert("time", "2 AM");

    let s = Template::new(test).render(&args, &Host::new());

    assert_eq!(s, "Henry, why are you writing code at 2 AM again?");
}

#[test]
fn default_some() {
    let test: &str = "${name:-Henry}, why are you writing code at ${time} again?";
    let mut args = Variables::new();
    args.insert("name", "Charles");
    args.insert("time", "2 AM");

    let s = Template::new(test).render(&args, &Host::new());

    assert_eq!(s, "Charles, why are you writing code at 2 AM again?");
}

#[test]
fn recursive_empty() {
    let test: &str = "${name:-Henry}, why are you writing code at ${time} again?";
    let mut args = Variables::new();
    args.insert("name", "${king:-Big Man}");
    args.insert("time", "2 AM");

    let s = Template::new(test).render(&args, &Host::new());

    assert_eq!(s, "Big Man, why are you writing code at 2 AM again?");
}

#[test]
fn recursive_some() {
    let test: &str = "${name:-Henry}, why are you writing code at ${time} again?";
    let mut args = Variables::new();
    args.insert("king", "William");
    args.insert("name", "${king:-Big Man}");
    args.insert("time", "2 AM");

    let s = Template::new(test).render(&args, &Host::new());

    assert_eq!(s, "William, why are you writing code at 2 AM again?");
}

#[test]
fn recursive_twice() {
    let test: &str = "${content:-${first} and ${second}}";
    let mut args = Variables::new();
    args.insert("first", "one");
    args.insert("second", "two");

    let s = Template::new(test).render(&args, &Host::new());

    assert_eq!(s, "one and two");
}

#[test]
fn from_env() {
    let test: &str = "My name is ${NAME}";
    let mut host = Host::new();
    let s = Template::new(test).render_env(&host);

    assert_eq!(s, "My name is ");

    host.set_env("NAME", "Henry");

    let s = Template::new(test).render_env(&host);

    assert_eq!(s, "My name is Henry");
}

#[test]
fn alone() {
    let mut args = Variables::new();
    args.insert("dog", "woofers");

    let s = Template::new("${dog}").render(&args, &Host::new());

    assert_eq!(s, "woofers");
}

#[test]
fn alt_delimeters() {
    let mut args = Variables::new();
    args.insert("dog", "woofers");
    args.insert("cat", "{cat_name:=moggy} that says {cat_noise}");
    args.insert("cat_noise", "meeow");

    let s = Template::new_delimit("My dog {dog} has a friend {cat}", "{", "}").render(&args, &Host::new());

    assert_eq!(s, "My dog woofers has a friend moggy that says meeow");
}

#[test]
fn alt_delimeters2() {
    let mut args = Variables::new();
    args.insert("dog", "{ good } woofers { eh }");
    args.insert("cat", "${{cat_name:=moggy}} that says ${{cat_noise}}");
    args.insert("cat_noise", "meeow");

    let s = Template::new_delimit("My dog ${{dog}} has a friend {well says he does} ${{cat}}", "${{", "}}").render(&args, &Host::new());

    assert_eq!(s, "My dog { good } woofers { eh } has a friend {well says he does} moggy that says meeow");
}

#[test]
fn include_file() {
    let mut args = Variables::new();
    args.insert("example", "text");
    let mut host = Host::new();
    host.add_file("test.inc", "inc ${example}\n");
    let s = Template::new("File contains: ${!test.inc}").render(&args, &host);

    assert_eq!(s, "File contains: inc text");
}

#[test]
fn dont_include() {
    let s = Template::new("${!/etc/passwd}").render_env(&Host::new());

    assert_eq!(s, "");
}

#[test]
fn many() {
    let mut args = Variables::new();
    args.insert("dog", "woofers|rex");
    args.insert("cat", "kitty|moggi|tiger");
    args.insert("pets", "${dog} and ${cat}");

    let s = Template::new("${*pets}").render(&args, &Host::new());

    assert_eq!(s, "woofers and kitty\nrex and moggi");
}

#[test]
fn many_delim() {
    let mut args = Variables::new();
    args.insert("dog", "woofers|rex");
    args.insert("cat", "kitty|moggi");
    args.insert("pets", "${dog} and ${cat}");

    let s = Template::new("${*|pets}").render(&args, &Host::new());

    assert_eq!(s, "woofers and kitty|rex and moggi");
}

#[test]
fn many_delim2() {
    let mut args = Variables::new();
    args.insert("dog", "woofers|rex");
    args.insert("cat", "kitty|moggi");
    args.insert("rabbit", "cuddly");
    args.insert("pets", "${dog}, ${cat} and ${rabbit}");

    let s = Template::new("I love ${*;pets} a lot").render(&args, &Host::new());

    assert_eq!(s, "I love woofers, kitty and cuddly;rex, moggi and cuddly a lot");
}

#[test]
fn many_delim3() {
    let mut args = Variables::new();
    args.insert("marg", "arg0");
    args.insert("top", "${marg}");

    let s = Template::new("[${*,top}]").render(&args, &Host::new());

    assert_eq!(s, "[arg0]");
}

#[test]
fn many_delim4() {
    let mut args = Variables::new();
    args.insert("marg", "arg0");
    args.insert("mand_args", r#""${marg}""#);
    args.insert("func", r#"[${*,mand_args}]"#);

    let s = Template::new("${func}").render(&args, &Host::new());

    assert_eq!(s, "[\"arg0\"]");
}

#[test]
fn exists_with_value() {
    let mut args = Variables::new();
    args.insert("v1", "aaa");
    args.insert("v2", "bbb");
    args.insert("value", "text");
    let s = Template::new("${?value=text:-${v1}${v2}}").render(&args, &Host::new());

    assert_eq!(s, "aaabbb");
}

#[test]
fn code() {
    let mut args = Variables::new();

    let code = r####"
Sure, here's a simple example of an HTTP proxy in Rust using the `hyper` and `tokio` crates:
    
    # Cargo.toml
    [package]
    name = "http_proxy"
    version = "0.1.0"
    edition = "2018"
    
    [dependencies]
    hyper = "0.14"
    tokio = { version = "1", features = ["full"] }
    
    // src/main.rs
    use hyper::{Client, Request, Response, Body, Server};
    use hyper::service::{make_service_fn, service_fn};
    use std::convert::Infallible;
    use tokio::runtime::Runtime;
    
    async fn proxy(req: Request<Body>) -> Result<Response<Body>, hyper::Error> {
        let client = Client::new();
        client.request(req).await
    }
    
    #[tokio::main]
    async fn main() {
        let make_svc = make_service_fn(|_conn| {
            async {
                Ok::<_, Infallible>(service_fn(proxy))
            }
        });
    
        let addr = ([127, 0, 0, 1], 3000).into();
        let server = Server::bind(&addr).serve(make_svc);
    
        println!("Listening on http://{}", addr);
    
        if let Err(e) = server.await {
            eprintln!("server error: {}", e);
        }
    }
    
    To run this code, ensure you have Rust and Cargo installed, then create a new project, add the dependencies in `Cargo.toml`, and replace the contents of `src/main.rs` with the provided code.
        "####;

    args.insert("code", code);
    let s = Template::new(">>> ${code} <<<").render(&args, &Host::new());

    assert_eq!(s, format!(">>> {} <<<", code.trim()));
}

#[test]
fn code_literal() {
    let mut args = Variables::new();

    let code = r####"
Sure, here's a simple example of an HTTP proxy in Rust using the `hyper` and `tokio` crates:
    
    # Cargo.toml
    [package]
    name = "http_proxy"
    version = "0.1.0"
    edition = "2018"
    
    [dependencies]
    hyper = "0.14"
    tokio = { version = "1", features = ["full"] }
    ${fred:=FRED}
    
    // src/main.rs
    use hyper::{Client, Request, Response, Body, Server};
    use hyper::service::{make_service_fn, service_fn};
    use std::convert::Infallible;
    use tokio::runtime::Runtime;
    
    async fn proxy(req: Request<Body>) -> Result<Response<Body>, hyper::Error> {
        let client = Client::new();
        client.request(req).await
    }
    
    #[tokio::main]
    async fn main() {
        let make_svc = make_service_fn(|_conn| {
            async {
                Ok::<_, Infallible>(service_fn(proxy))
            }
        });
    
        let addr = ([127, 0, 0, 1], 3000).into();
        let server = Server::bind(&addr).serve(make_svc);
    
        println!("Listening on http://{}", addr);
    
        if let Err(e) = server.await {
            eprintln!("server error: {}", e);
        }
    }
    
    To run this code, ensure you have Rust and Cargo installed, then create a new project, add the dependencies in `Cargo.toml`, and replace the contents of `src/main.rs` with the provided code.
        "####;

    args.insert("code", code);
    args.insert("something", "SOMETHING");
    let s = Template::new(">>> ${=code} ${something} <<<").render(&args, &Host::new());

    assert_eq!(s, format!(">>> {} SOMETHING <<<", code));
}
