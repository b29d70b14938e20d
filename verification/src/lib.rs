//! Runs an `xpui` app in a desktop window: the verified core.

pub mod agents;
pub mod assemble;
pub mod checks;
pub mod click;
pub mod commands;
pub mod comments;
pub mod controls;
pub mod device;
pub mod docs;
pub mod faults;
pub mod feed;
pub mod fences;
pub mod frame;
pub mod keys;
pub mod layout;
pub mod pages;
pub mod paint;
pub mod panel;
pub mod paths;
pub mod press;
pub mod prose;
pub mod readme;
pub mod reference;
pub mod reports;
pub mod rustdoc;
pub mod session;
pub mod simulator;
pub mod shots;
pub mod text;
pub mod touch;
pub mod tree;
pub mod window;

pub use agents::{link_report, stages_report, Link};
pub use assemble::{crate_doc, docs_in_step, source_path, symbols_from, Docs};
pub use checks::{
    comments_report, compiled_report, compiled_report_checked, in_scope, links_report, narration_report,
    narration_report_checked, readme_report, reference_report, reference_report_checked, resolve_report, Order,
};
pub use click::{route, Hit};
pub use commands::{
    block_steps, cd_dir, is_shell, leaves, not_our_verbs, walk, Step, Walk,
};
pub use controls::{control_for, Control};
pub use feed::{deliver, panel_point, Feed};
pub use frame::{Action, Event, Frame};
pub use fences::{commands, fences, words, Fence, ShellCommand};
pub use keys::{button_for, Key};
pub use device::{Bezel, Board, Button, KeyAction, PhysicalButton, Point, SwipeDir};
pub use layout::BezelLayout;
pub use pages::{between, declares, prose, rendered, sections_in, signature, text_of, Section};
pub use paths::under_src;
pub use prose::{attributes_of, doc_ignores, mounted_by, normalise, page_faults};
pub use readme::{faults, headings};
pub use reference::{compare, Reference, Tally};
pub use reports::{
    crate_named, docs_report, front_page_report, in_crate_src, sizes_report, tested_report,
};
pub use rustdoc::{
    bare, declaration, described, items, link, locate, members, reexports, top_source, Kind, Member,
    Symbol,
};
pub use comments::{blocks, narrates, narration, narration_hits, over_cap, Block, Caps, CommentKind};
pub use docs::{blank_code_spans, destination, doc_comments, links, names_a_rust_item};
pub use faults::{checkable, fault, probes};
pub use paint::{backdrop, body_plan, can_paint, paint_body, Face, Shape};
pub use panel::{window_fits, Panel};
pub use press::{due_deliveries, Delivery, Keypad, Keys, Press, Raw};
pub use session::{fits_every_zoom, Session};
pub use shots::{next_number, shot_stem_of};
pub use simulator::Simulator;
pub use window::window_settings;
pub use touch::{Contact, EdgeGesture, Touch, Touches, Touchscreen};
pub use tree::{
    crate_verdict, denies_missing_docs, documented_stages, expected_stages, has_unit_test, is_package,
    line_count, manifest_crate, package_name, publishable, warns, Verdict,
};
