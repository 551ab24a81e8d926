use wasm_zero::benchmark;
use wasm_zero::cli::output_names;
use wasm_zero::cli::parse_args;
use wasm_zero::demo_nostd;
use wasm_zero::demo_std;
use wasm_zero::mandelbrot::image_len;
use wasm_zero::mandelbrot::shade;
use wasm_zero::mandelbrot::shade_row;
use wasm_zero::serve::address;
use wasm_zero::serve::isolation_headers;
use wasm_zero::serve::page;
use wasm_zero::serve::port;
use wasm_zero::serve::serving;

#[test]
fn benchmark_functions_compute() {
    assert_eq!(benchmark::thunk(), ());
    assert_eq!(benchmark::add(-2, 5), 3);
    let first: Vec<i32> = (0..10).map(benchmark::fibonacci).collect();
    assert_eq!(first, [1, 1, 2, 3, 5, 8, 13, 21, 34, 55]);
    assert_eq!(benchmark::fibonacci(-5), 1);
    for n in 2..=91 {
        let (a, b) = (benchmark::fibonacci(n - 1), benchmark::fibonacci(n - 2));
        assert_eq!(benchmark::fibonacci(n), a.wrapping_add(b));
    }
    assert_eq!(benchmark::fibonacci(46), 2971215073u64 as i32);
    assert_eq!(benchmark::fibonacci(91), 7540113804746346429u64 as i32);
    let scores = benchmark::get_scores();
    assert_eq!(scores, (0..1024).collect::<Vec<u32>>());
}

#[test]
fn people_are_complete() {
    let p = benchmark::get_person();
    assert_eq!((p.name.as_str(), p.age), ("Susize", 25));
    assert_eq!(p.email.as_deref(), Some("susize@example.com"));
    assert_eq!(p.scores, [95, 87, 92]);
    let p = demo_nostd::get_adult_person();
    assert_eq!((p.name.as_str(), p.age), ("Susize", 25));
    assert_eq!(p.email.as_deref(), Some("susize@example.com"));
    assert_eq!(p.scores, [95, 87, 92]);
}

#[test]
fn greetings_are_said() {
    assert_eq!(demo_nostd::greet(), "Hello! wasm_zero (no_std) is loaded.");
    assert_eq!(demo_std::greet("Ann"), "Hello, Ann! wasm_zero (std) is loaded.");
}

fn strings(args: &[&str]) -> Vec<String> {
    args.iter().map(|a| a.to_string()).collect()
}

#[test]
fn arguments_are_understood() {
    let o = parse_args(&strings(&["a.wasm", "pkg"])).unwrap();
    assert_eq!((o.wasm.as_str(), o.out_dir.as_str(), o.strip_to), ("a.wasm", "pkg", None));
    let o = parse_args(&strings(&["a.wasm", "pkg", "--strip-to", "b.wasm", "more"])).unwrap();
    assert_eq!(o.strip_to.as_deref(), Some("b.wasm"));
    for bad in [&[][..], &["a"], &["a", "b", "--strip-to"], &["a", "b", "--strip", "c"]] {
        assert!(parse_args(&strings(bad)).is_none());
    }
    assert_eq!(output_names(), ["bindings.ts", "bindings.js"]);
}

#[test]
fn ports_are_numbers() {
    assert_eq!(port(None), 8000);
    for (text, want) in [
        ("80", 80),
        ("+8080", 8080),
        ("0", 0),
        ("0000065535", 65535),
        ("65536", 8000),
        ("99999999999999999999999", 8000),
        ("", 8000),
        ("+", 8000),
        ("++1", 8000),
        ("-1", 8000),
        (" 80", 8000),
        ("8o", 8000),
    ] {
        assert_eq!(port(Some(text)), want, "{text}");
        assert_eq!(text.parse::<u16>().unwrap_or(8000), want, "{text}");
    }
}

#[test]
fn the_server_says_where_it_is() {
    assert_eq!(address(8000), "127.0.0.1:8000");
    assert_eq!(serving("/srv", 81), "serving /srv on http://127.0.0.1:81");
    assert_eq!(page(81, "/a.html", "  (b)"), "  http://127.0.0.1:81/a.html  (b)");
    assert_eq!(
        isolation_headers(),
        [
            ("Cross-Origin-Opener-Policy", "same-origin"),
            ("Cross-Origin-Embedder-Policy", "require-corp"),
        ]
    );
}

#[test]
fn points_are_coloured() {
    let palette = vec![[1, 2, 3, 255], [4, 5, 6, 255]];
    assert_eq!(shade(3, 10, &palette), [4, 5, 6, 255]);
    assert_eq!(shade(10, 10, &palette), [0, 0, 0, 255]);
    assert_eq!(
        shade_row(&vec![0, 10, 1], 10, &palette),
        [1, 2, 3, 255, 0, 0, 0, 255, 4, 5, 6, 255]
    );
    assert_eq!(shade_row(&vec![5], 5, &Vec::new()), [0, 0, 0, 255]);
    assert_eq!(image_len(320, 240), 307200);
}
