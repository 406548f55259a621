use rudder_lang::stack::{Backtrace, RawFrame, RawSymbol, render_trace};

fn sym(name: Option<&str>, file: Option<&str>, line: Option<u32>) -> RawSymbol {
    RawSymbol {
        name: name.map(|n| n.to_string()),
        filename: file.map(|f| f.to_string()),
        lineno: line,
    }
}

#[test]
fn plain_tool_symbol_is_kept_without_its_hash() {
    let frames = vec![RawFrame {
        symbols: vec![sym(
            Some("rudderc::compiler::compile::h1a2b3c"),
            Some("src/compiler.rs"),
            Some(42),
        )],
    }];
    let out = render_trace(&frames);
    assert_eq!(out, "\nTrace:\n  rudderc::compiler::compile at 'src/compiler.rs:42'");
}

#[test]
fn trait_impl_alias_keeps_start_and_method_segment() {
    let frames = vec![RawFrame {
        symbols: vec![sym(
            Some("<rudderc::output::Thing as core::fmt::Display>::fmt::h9f"),
            Some("src/output.rs"),
            Some(7),
        )],
    }];
    let out = render_trace(&frames);
    assert_eq!(out, "\nTrace:\n  rudderc::output::Thing::fmt at 'src/output.rs:7'");
}

#[test]
fn foreign_symbols_are_dropped() {
    let frames = vec![RawFrame {
        symbols: vec![sym(Some("std::panicking::begin_panic::h00"), Some("panicking.rs"),
            Some(1))],
    }];
    assert_eq!(render_trace(&frames), "\nTrace:\n");
}

#[test]
fn reporter_symbols_are_excluded() {
    let frames = vec![
        RawFrame {
            symbols: vec![sym(Some("rudderc::logger::Output::print::habc"), Some("l.rs"),
                Some(2))],
        },
        RawFrame {
            symbols: vec![sym(Some("rudderc::error::Error::new::hdef"), Some("e.rs"), Some(3))],
        },
        RawFrame {
            symbols: vec![sym(Some("rudderc::work::run::h11"), Some("w.rs"), Some(4))],
        },
    ];
    let out = render_trace(&frames);
    assert!(!out.contains("rudderc::logger"));
    assert!(!out.contains("rudderc::error::Error::new"));
    assert_eq!(out, "\nTrace:\n  rudderc::work::run at 'w.rs:4'");
}

#[test]
fn an_unresolvable_symbol_is_dropped_but_its_frame_is_kept() {
    let frames = vec![
        RawFrame {
            symbols: vec![
                sym(Some("rudderc::work::run::h11"), Some("w.rs"), Some(4)),
                sym(None, None, None),
            ],
        },
        RawFrame {
            symbols: vec![sym(Some("rudderc::main::h22"), Some("m.rs"), Some(9))],
        },
    ];
    let out = render_trace(&frames);
    assert_eq!(out, "\nTrace:\n  rudderc::work::run at 'w.rs:4'\n  rudderc::main at 'm.rs:9'");
}

#[test]
fn missing_file_and_line_degrade_to_undefined() {
    let frames = vec![RawFrame {
        symbols: vec![sym(Some("rudderc::work::run::h11"), None, None)],
    }];
    let out = render_trace(&frames);
    assert_eq!(out, "\nTrace:\n  rudderc::work::run at 'undefined:undefined'");
}

#[test]
fn later_symbols_in_a_frame_are_indented_deeper() {
    let frames = vec![RawFrame {
        symbols: vec![
            sym(Some("rudderc::a::h1"), Some("a.rs"), Some(1)),
            sym(Some("rudderc::b::h2"), Some("b.rs"), Some(2)),
        ],
    }];
    let out = render_trace(&frames);
    assert_eq!(out, "\nTrace:\n  rudderc::a at 'a.rs:1'\n    rudderc::b at 'b.rs:2'");
}

#[test]
fn captured_backtrace_renders_with_trace_header() {
    let bt = Backtrace::new();
    let out = bt.render();
    assert!(out.starts_with("\nTrace:\n"));
}

#[test]
fn from_frames_backtrace_renders_like_its_frames() {
    let frames = vec![RawFrame {
        symbols: vec![sym(Some("rudderc::x::y::hf0"), Some("x.rs"), Some(5))],
    }];
    let frames2 = vec![RawFrame {
        symbols: vec![sym(Some("rudderc::x::y::hf0"), Some("x.rs"), Some(5))],
    }];
    let bt = Backtrace::from_frames(frames);
    assert_eq!(bt.render(), render_trace(&frames2));
}
