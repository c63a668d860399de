use echo::args::{build_string, Config};
use echo::cursor::Cursor;
use echo::decode::escape;
use echo::numeric::{parse_hex, parse_oct};

#[test]
fn bench_build_string_new() {
    let config = Config {
        interp: true,
        newline: true,
    };

    let args = vec!["Doot", "Deet", "Very Long String In Comparision", "Foo", "Bar", "$HOME"]
        .into_iter()
        .map(String::from)
        .collect::<Vec<String>>();
    let values = vec![String::new(); args.len()];

    println!("bench_build_string_new {}", easybench::bench(|| build_string(&config, &args, &values)));
}

#[test]
fn bench_build_string_non() {
    let config = Config {
        interp: true,
        newline: false
    };

    let args = vec!["Doot", "Deet", "Very Long String In Comparision", "Foo", "Bar"]
        .into_iter()
        .map(String::from)
        .collect::<Vec<String>>();
    let values = vec![String::new(); args.len()];

    println!("bench_build_string_non {}", easybench::bench(|| build_string(&config, &args, &values)));
}

#[test]
fn bench_escape() {
    let data = "SuperLong Co\\nnnected string to test \\\\escaping, \\0173, \\u7B";
    println!("bench_escape {}", easybench::bench(|| escape(data)));
}

#[test]
fn bench_escape_non() {
    let data = "SuperLong connected string to test escaping without escape codes";
    println!("bench_escape_non {}", easybench::bench(|| escape(data)))
}

#[test]
fn bench_parse_hex() {
    println!("bench_parse_hex {}", easybench::bench_env(Cursor::new(vec!['7', 'B']),
                                              |data| parse_hex(data)));
}

#[test]
fn bench_parse_oct() {
    println!("bench_parse_oct {}", easybench::bench_env(Cursor::new(vec!['1', '7', '3']),
                                              |data| parse_oct(data)));
}
