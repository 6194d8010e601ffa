//! The form: every question of the wizard in one table.
//!
//! The line-by-line walk, the full-screen form and the filling of defaults all
//! read this table, so that they ask the same questions in the same order.
use crate::advanced::EmptyMeans;
use crate::config::strs;
use crate::text::{lemma_texts_push, owned, same, texts, trim, trimmed};
use vstd::prelude::*;

verus! {

/// How a question is edited.
#[derive(Clone, Copy, Debug, PartialEq, Eq, Structural)]
pub enum FieldKind {
    /// Free text.
    Text,
    /// A count.
    Count,
    /// One of some options.
    Select,
    /// Yes or no.
    Toggle,
}

/// How often a group of questions is asked.
#[derive(Clone, Copy, Debug, PartialEq, Eq, Structural)]
pub enum Repeat {
    Once,
    PerHost,
    PerHostDut,
}

/// What a question of a group is about.
#[derive(Clone, Copy, Debug, PartialEq)]
pub enum FieldKeyFrag {
    HostCount,
    HostIp,
    HostUser,
    HostPass,
    HostName,
    DutCount,
    DutName,
    DutPort,
    DutLoginUser,
    /// Whether the board has a relay; the relay questions follow only if so.
    DutRelayGate,
    DutRelayType,
    DutRelayPort,
    DutRelayReset,
    DutRelayDownload,
    DutRelayPower,
    DutRelayResetTimeMs,
    DutRelayPowerOffTimeMs,
    /// An advanced key of the top-level sections.
    Advanced(&'static str),
    /// An advanced key of a board.
    DutAdvanced(&'static str),
}

/// The meaning of a [`FieldKeyFrag`].
pub enum FragView {
    HostCount,
    HostIp,
    HostUser,
    HostPass,
    HostName,
    DutCount,
    DutName,
    DutPort,
    DutLoginUser,
    DutRelayGate,
    DutRelayType,
    DutRelayPort,
    DutRelayReset,
    DutRelayDownload,
    DutRelayPower,
    DutRelayResetTimeMs,
    DutRelayPowerOffTimeMs,
    Advanced(Seq<char>),
    DutAdvanced(Seq<char>),
}

impl View for FieldKeyFrag {
    type V = FragView;

    open spec fn view(&self) -> FragView {
        match self {
            FieldKeyFrag::HostCount => FragView::HostCount,
            FieldKeyFrag::HostIp => FragView::HostIp,
            FieldKeyFrag::HostUser => FragView::HostUser,
            FieldKeyFrag::HostPass => FragView::HostPass,
            FieldKeyFrag::HostName => FragView::HostName,
            FieldKeyFrag::DutCount => FragView::DutCount,
            FieldKeyFrag::DutName => FragView::DutName,
            FieldKeyFrag::DutPort => FragView::DutPort,
            FieldKeyFrag::DutLoginUser => FragView::DutLoginUser,
            FieldKeyFrag::DutRelayGate => FragView::DutRelayGate,
            FieldKeyFrag::DutRelayType => FragView::DutRelayType,
            FieldKeyFrag::DutRelayPort => FragView::DutRelayPort,
            FieldKeyFrag::DutRelayReset => FragView::DutRelayReset,
            FieldKeyFrag::DutRelayDownload => FragView::DutRelayDownload,
            FieldKeyFrag::DutRelayPower => FragView::DutRelayPower,
            FieldKeyFrag::DutRelayResetTimeMs => FragView::DutRelayResetTimeMs,
            FieldKeyFrag::DutRelayPowerOffTimeMs => FragView::DutRelayPowerOffTimeMs,
            FieldKeyFrag::Advanced(k) => FragView::Advanced(k@),
            FieldKeyFrag::DutAdvanced(k) => FragView::DutAdvanced(k@),
        }
    }
}

/// Where the default of a question comes from.
#[derive(Clone, Copy, Debug, PartialEq)]
pub enum DefaultSrc {
    /// A fixed text.
    Static(&'static str),
    /// The first free board name.
    AutoDutName,
    /// What the configuration holds, or else the default of the advanced key.
    AdvancedNatural,
    /// What the configuration holds, or else the reference log of the board.
    ReferenceLogComposed,
    /// The count in the configuration.
    RuntimeCount,
    /// Whether the board has a relay in the configuration.
    RuntimeRelayGate,
}

/// The meaning of a [`DefaultSrc`].
pub enum SourceView {
    Static(Seq<char>),
    AutoDutName,
    AdvancedNatural,
    ReferenceLogComposed,
    RuntimeCount,
    RuntimeRelayGate,
}

impl View for DefaultSrc {
    type V = SourceView;

    open spec fn view(&self) -> SourceView {
        match self {
            DefaultSrc::Static(s) => SourceView::Static(s@),
            DefaultSrc::AutoDutName => SourceView::AutoDutName,
            DefaultSrc::AdvancedNatural => SourceView::AdvancedNatural,
            DefaultSrc::ReferenceLogComposed => SourceView::ReferenceLogComposed,
            DefaultSrc::RuntimeCount => SourceView::RuntimeCount,
            DefaultSrc::RuntimeRelayGate => SourceView::RuntimeRelayGate,
        }
    }
}

/// One question of a group.
#[derive(Debug, PartialEq)]
pub struct FieldDef {
    pub key: FieldKeyFrag,
    pub kind: FieldKind,
    pub label: &'static str,
    pub required: bool,
    pub empty: EmptyMeans,
    pub default: DefaultSrc,
    /// What can be chosen, where the question is a choice.
    pub options: Vec<&'static str>,
}

/// The meaning of a [`FieldDef`].
#[verifier::ext_equal]
pub struct FieldView {
    pub key: FragView,
    pub kind: FieldKind,
    pub label: Seq<char>,
    pub required: bool,
    pub empty: EmptyMeans,
    pub default: SourceView,
    pub options: Seq<Seq<char>>,
}

impl View for FieldDef {
    type V = FieldView;

    open spec fn view(&self) -> FieldView {
        FieldView {
            key: self.key@,
            kind: self.kind,
            label: self.label@,
            required: self.required,
            empty: self.empty,
            default: self.default@,
            options: strs(self.options@),
        }
    }
}

/// The meanings of some questions.
pub open spec fn fields_view(v: Seq<FieldDef>) -> Seq<FieldView> {
    Seq::new(v.len(), |i: int| v[i]@)
}

/// A group of questions.
#[derive(Debug, PartialEq)]
pub struct FormGroup {
    pub repeat: Repeat,
    pub title: &'static str,
    pub fields: Vec<FieldDef>,
}

/// The meaning of a [`FormGroup`].
#[verifier::ext_equal]
pub struct GroupView {
    pub repeat: Repeat,
    pub title: Seq<char>,
    pub fields: Seq<FieldView>,
}

impl View for FormGroup {
    type V = GroupView;

    open spec fn view(&self) -> GroupView {
        GroupView {
            repeat: self.repeat,
            title: self.title@,
            fields: fields_view(self.fields@),
        }
    }
}

/// The meanings of some groups.
pub open spec fn groups_view(v: Seq<FormGroup>) -> Seq<GroupView> {
    Seq::new(v.len(), |i: int| v[i]@)
}

// ── The table ────────────────────────────────────────────────────────
/// A row of the table.
pub open spec fn field(
    key: FragView,
    kind: FieldKind,
    label: Seq<char>,
    required: bool,
    empty: EmptyMeans,
    default: SourceView,
    options: Seq<Seq<char>>,
) -> FieldView {
    FieldView { key, kind, label, required, empty, default, options }
}

/// The number of hosts.
pub open spec fn host_count_group_of() -> GroupView {
    GroupView {
        repeat: Repeat::Once,
        title: "host-count"@,
        fields: seq![
            field(
                FragView::HostCount,
                FieldKind::Count,
                "Number of dev hosts"@,
                false,
                EmptyMeans::AcceptDefault,
                SourceView::RuntimeCount,
                Seq::empty(),
            ),
        ],
    }
}

/// One host.
pub open spec fn host_group_of() -> GroupView {
    GroupView {
        repeat: Repeat::PerHost,
        title: "dev-host"@,
        fields: seq![
            field(
                FragView::HostIp,
                FieldKind::Text,
                "Dev host ip (ssh / ser2net host)"@,
                true,
                EmptyMeans::AcceptDefault,
                SourceView::Static(""@),
                Seq::empty(),
            ),
            field(
                FragView::HostUser,
                FieldKind::Text,
                "Dev host ssh user"@,
                false,
                EmptyMeans::AcceptDefault,
                SourceView::Static(""@),
                Seq::empty(),
            ),
            field(
                FragView::HostPass,
                FieldKind::Text,
                "Dev host ssh password (plaintext)"@,
                false,
                EmptyMeans::AcceptDefault,
                SourceView::Static(""@),
                Seq::empty(),
            ),
            field(
                FragView::HostName,
                FieldKind::Text,
                "Dev host display name (optional — falls back to ip)"@,
                false,
                EmptyMeans::AcceptDefault,
                SourceView::Static(""@),
                Seq::empty(),
            ),
            field(
                FragView::DutCount,
                FieldKind::Count,
                "Number of DUTs on this host"@,
                false,
                EmptyMeans::AcceptDefault,
                SourceView::RuntimeCount,
                Seq::empty(),
            ),
        ],
    }
}

/// One board.
pub open spec fn dut_group_of() -> GroupView {
    GroupView {
        repeat: Repeat::PerHostDut,
        title: "dut"@,
        fields: seq![
            field(
                FragView::DutName,
                FieldKind::Text,
                "DUT name"@,
                false,
                EmptyMeans::AcceptDefault,
                SourceView::AutoDutName,
                Seq::empty(),
            ),
            field(
                FragView::DutPort,
                FieldKind::Text,
                "Serial port (ser2net port or /dev/ttyUSB0)"@,
                true,
                EmptyMeans::AcceptDefault,
                SourceView::Static(""@),
                Seq::empty(),
            ),
            field(
                FragView::DutLoginUser,
                FieldKind::Text,
                "Target login user"@,
                false,
                EmptyMeans::AcceptDefault,
                SourceView::Static("root"@),
                Seq::empty(),
            ),
            field(
                FragView::DutRelayGate,
                FieldKind::Toggle,
                "Use relay? (reset/download/power control)"@,
                false,
                EmptyMeans::AcceptDefault,
                SourceView::RuntimeRelayGate,
                Seq::empty(),
            ),
            field(
                FragView::DutRelayType,
                FieldKind::Select,
                "Relay type"@,
                false,
                EmptyMeans::AcceptDefault,
                SourceView::Static("ch340"@),
                Seq::empty(),
            ),
            field(
                FragView::DutRelayPort,
                FieldKind::Text,
                "Relay port (0 = inherit)"@,
                false,
                EmptyMeans::SkipInherit,
                SourceView::Static("0"@),
                Seq::empty(),
            ),
            field(
                FragView::DutRelayReset,
                FieldKind::Text,
                "Relay reset (0 = inherit)"@,
                false,
                EmptyMeans::SkipInherit,
                SourceView::Static("0"@),
                Seq::empty(),
            ),
            field(
                FragView::DutRelayDownload,
                FieldKind::Text,
                "Relay download (0 = inherit)"@,
                false,
                EmptyMeans::SkipInherit,
                SourceView::Static("0"@),
                Seq::empty(),
            ),
            field(
                FragView::DutRelayPower,
                FieldKind::Text,
                "Relay power (0 = inherit)"@,
                false,
                EmptyMeans::SkipInherit,
                SourceView::Static("0"@),
                Seq::empty(),
            ),
            field(
                FragView::DutRelayResetTimeMs,
                FieldKind::Text,
                "Reset hold ms — how long the reset key stays pressed (0 = inherit)"@,
                false,
                EmptyMeans::SkipInherit,
                SourceView::Static("0"@),
                Seq::empty(),
            ),
            field(
                FragView::DutRelayPowerOffTimeMs,
                FieldKind::Text,
                "Power hold ms — how long the power key stays pressed (0 = inherit global)"@,
                false,
                EmptyMeans::AcceptDefault,
                SourceView::Static("3000"@),
                Seq::empty(),
            ),
        ],
    }
}

/// The advanced keys of one board.
pub open spec fn dut_advanced_group_of() -> GroupView {
    GroupView {
        repeat: Repeat::PerHostDut,
        title: "dut-advanced"@,
        fields: seq![
            field(
                FragView::DutAdvanced("serial.baudrate"@),
                FieldKind::Text,
                "Serial baudrate (number)"@,
                false,
                EmptyMeans::AcceptDefault,
                SourceView::AdvancedNatural,
                Seq::empty(),
            ),
            field(
                FragView::DutAdvanced("target.login_pass"@),
                FieldKind::Text,
                "Target login password"@,
                false,
                EmptyMeans::SkipInherit,
                SourceView::AdvancedNatural,
                Seq::empty(),
            ),
            field(
                FragView::DutAdvanced("target.login_prompt"@),
                FieldKind::Text,
                "Target login prompt regex"@,
                false,
                EmptyMeans::SkipInherit,
                SourceView::AdvancedNatural,
                Seq::empty(),
            ),
            field(
                FragView::DutAdvanced("uboot.interrupt_char"@),
                FieldKind::Text,
                "U-Boot interrupt char"@,
                false,
                EmptyMeans::AcceptDefault,
                SourceView::AdvancedNatural,
                Seq::empty(),
            ),
            field(
                FragView::DutAdvanced("uboot.interrupt_strategy"@),
                FieldKind::Select,
                "U-Boot interrupt strategy"@,
                false,
                EmptyMeans::AcceptDefault,
                SourceView::AdvancedNatural,
                seq!["flood"@, "pattern"@],
            ),
            field(
                FragView::DutAdvanced("uboot.pattern"@),
                FieldKind::Text,
                "U-Boot interrupt pattern regex"@,
                false,
                EmptyMeans::SkipInherit,
                SourceView::AdvancedNatural,
                Seq::empty(),
            ),
            field(
                FragView::DutAdvanced("monitor.max_archived_logs"@),
                FieldKind::Text,
                "Max archived boot logs"@,
                false,
                EmptyMeans::AcceptDefault,
                SourceView::AdvancedNatural,
                Seq::empty(),
            ),
            field(
                FragView::DutAdvanced("monitor.reference_log"@),
                FieldKind::Text,
                "Reference boot log path"@,
                false,
                EmptyMeans::AcceptDefault,
                SourceView::ReferenceLogComposed,
                Seq::empty(),
            ),
            field(
                FragView::DutAdvanced("monitor.crash_keywords"@),
                FieldKind::Text,
                "Crash keywords (comma/newline separated)"@,
                false,
                EmptyMeans::AcceptDefault,
                SourceView::AdvancedNatural,
                Seq::empty(),
            ),
            field(
                FragView::DutAdvanced("flash.full_image_cmd"@),
                FieldKind::Text,
                "Flash full-image command"@,
                false,
                EmptyMeans::AcceptDefault,
                SourceView::AdvancedNatural,
                Seq::empty(),
            ),
            field(
                FragView::DutAdvanced("flash.kernel_image_cmd"@),
                FieldKind::Text,
                "Flash kernel-image command"@,
                false,
                EmptyMeans::AcceptDefault,
                SourceView::AdvancedNatural,
                Seq::empty(),
            ),
            field(
                FragView::DutAdvanced("flash.loader_bin"@),
                FieldKind::Text,
                "Flash loader binary path"@,
                false,
                EmptyMeans::AcceptDefault,
                SourceView::AdvancedNatural,
                Seq::empty(),
            ),
            field(
                FragView::DutAdvanced("control.dev_ctrl"@),
                FieldKind::Select,
                "Device control backend"@,
                false,
                EmptyMeans::SkipInherit,
                SourceView::AdvancedNatural,
                seq!["ch340-relay"@, "none"@],
            ),
            field(
                FragView::DutAdvanced("loader"@),
                FieldKind::Select,
                "Boot loader"@,
                false,
                EmptyMeans::AcceptDefault,
                SourceView::AdvancedNatural,
                seq!["uboot"@, "uefi"@],
            ),
        ],
    }
}

/// The advanced keys of the top-level sections.
pub open spec fn advanced_group_of() -> GroupView {
    GroupView {
        repeat: Repeat::Once,
        title: "advanced"@,
        fields: seq![
            field(
                FragView::Advanced("monitor.hang_timeout"@),
                FieldKind::Text,
                "Hang timeout seconds"@,
                false,
                EmptyMeans::AcceptDefault,
                SourceView::AdvancedNatural,
                Seq::empty(),
            ),
            field(
                FragView::Advanced("monitor.max_log_file_size"@),
                FieldKind::Text,
                "Max log file size MB"@,
                false,
                EmptyMeans::AcceptDefault,
                SourceView::AdvancedNatural,
                Seq::empty(),
            ),
            field(
                FragView::Advanced("monitor.learner_stage_threshold"@),
                FieldKind::Text,
                "Learner stage threshold (0.0-1.0)"@,
                false,
                EmptyMeans::AcceptDefault,
                SourceView::AdvancedNatural,
                Seq::empty(),
            ),
            field(
                FragView::Advanced("monitor.learner_crash_threshold"@),
                FieldKind::Text,
                "Learner crash threshold (0.0-1.0)"@,
                false,
                EmptyMeans::AcceptDefault,
                SourceView::AdvancedNatural,
                Seq::empty(),
            ),
        ],
    }
}

/// The number of hosts.
pub fn host_count_group() -> (r: FormGroup)
    ensures
        r@ == host_count_group_of(),
{
    let fields: Vec<FieldDef> = vec![
        FieldDef {
            key: FieldKeyFrag::HostCount,
            kind: FieldKind::Count,
            label: "Number of dev hosts",
            required: false,
            empty: EmptyMeans::AcceptDefault,
            default: DefaultSrc::RuntimeCount,
            options: Vec::new(),
        },
    ];
    let r = FormGroup { repeat: Repeat::Once, title: "host-count", fields };
    assert(r@.fields =~~= host_count_group_of().fields);
    r
}

/// One host.
pub fn host_group() -> (r: FormGroup)
    ensures
        r@ == host_group_of(),
{
    let fields: Vec<FieldDef> = vec![
        FieldDef {
            key: FieldKeyFrag::HostIp,
            kind: FieldKind::Text,
            label: "Dev host ip (ssh / ser2net host)",
            required: true,
            empty: EmptyMeans::AcceptDefault,
            default: DefaultSrc::Static(""),
            options: Vec::new(),
        },
        FieldDef {
            key: FieldKeyFrag::HostUser,
            kind: FieldKind::Text,
            label: "Dev host ssh user",
            required: false,
            empty: EmptyMeans::AcceptDefault,
            default: DefaultSrc::Static(""),
            options: Vec::new(),
        },
        FieldDef {
            key: FieldKeyFrag::HostPass,
            kind: FieldKind::Text,
            label: "Dev host ssh password (plaintext)",
            required: false,
            empty: EmptyMeans::AcceptDefault,
            default: DefaultSrc::Static(""),
            options: Vec::new(),
        },
        FieldDef {
            key: FieldKeyFrag::HostName,
            kind: FieldKind::Text,
            label: "Dev host display name (optional — falls back to ip)",
            required: false,
            empty: EmptyMeans::AcceptDefault,
            default: DefaultSrc::Static(""),
            options: Vec::new(),
        },
        FieldDef {
            key: FieldKeyFrag::DutCount,
            kind: FieldKind::Count,
            label: "Number of DUTs on this host",
            required: false,
            empty: EmptyMeans::AcceptDefault,
            default: DefaultSrc::RuntimeCount,
            options: Vec::new(),
        },
    ];
    let r = FormGroup { repeat: Repeat::PerHost, title: "dev-host", fields };
    assert(r@.fields =~~= host_group_of().fields);
    r
}

/// One board.
pub fn dut_group() -> (r: FormGroup)
    ensures
        r@ == dut_group_of(),
{
    let fields: Vec<FieldDef> = vec![
        FieldDef {
            key: FieldKeyFrag::DutName,
            kind: FieldKind::Text,
            label: "DUT name",
            required: false,
            empty: EmptyMeans::AcceptDefault,
            default: DefaultSrc::AutoDutName,
            options: Vec::new(),
        },
        FieldDef {
            key: FieldKeyFrag::DutPort,
            kind: FieldKind::Text,
            label: "Serial port (ser2net port or /dev/ttyUSB0)",
            required: true,
            empty: EmptyMeans::AcceptDefault,
            default: DefaultSrc::Static(""),
            options: Vec::new(),
        },
        FieldDef {
            key: FieldKeyFrag::DutLoginUser,
            kind: FieldKind::Text,
            label: "Target login user",
            required: false,
            empty: EmptyMeans::AcceptDefault,
            default: DefaultSrc::Static("root"),
            options: Vec::new(),
        },
        FieldDef {
            key: FieldKeyFrag::DutRelayGate,
            kind: FieldKind::Toggle,
            label: "Use relay? (reset/download/power control)",
            required: false,
            empty: EmptyMeans::AcceptDefault,
            default: DefaultSrc::RuntimeRelayGate,
            options: Vec::new(),
        },
        FieldDef {
            key: FieldKeyFrag::DutRelayType,
            kind: FieldKind::Select,
            label: "Relay type",
            required: false,
            empty: EmptyMeans::AcceptDefault,
            default: DefaultSrc::Static("ch340"),
            options: Vec::new(),
        },
        FieldDef {
            key: FieldKeyFrag::DutRelayPort,
            kind: FieldKind::Text,
            label: "Relay port (0 = inherit)",
            required: false,
            empty: EmptyMeans::SkipInherit,
            default: DefaultSrc::Static("0"),
            options: Vec::new(),
        },
        FieldDef {
            key: FieldKeyFrag::DutRelayReset,
            kind: FieldKind::Text,
            label: "Relay reset (0 = inherit)",
            required: false,
            empty: EmptyMeans::SkipInherit,
            default: DefaultSrc::Static("0"),
            options: Vec::new(),
        },
        FieldDef {
            key: FieldKeyFrag::DutRelayDownload,
            kind: FieldKind::Text,
            label: "Relay download (0 = inherit)",
            required: false,
            empty: EmptyMeans::SkipInherit,
            default: DefaultSrc::Static("0"),
            options: Vec::new(),
        },
        FieldDef {
            key: FieldKeyFrag::DutRelayPower,
            kind: FieldKind::Text,
            label: "Relay power (0 = inherit)",
            required: false,
            empty: EmptyMeans::SkipInherit,
            default: DefaultSrc::Static("0"),
            options: Vec::new(),
        },
        FieldDef {
            key: FieldKeyFrag::DutRelayResetTimeMs,
            kind: FieldKind::Text,
            label: "Reset hold ms — how long the reset key stays pressed (0 = inherit)",
            required: false,
            empty: EmptyMeans::SkipInherit,
            default: DefaultSrc::Static("0"),
            options: Vec::new(),
        },
        FieldDef {
            key: FieldKeyFrag::DutRelayPowerOffTimeMs,
            kind: FieldKind::Text,
            label: "Power hold ms — how long the power key stays pressed (0 = inherit global)",
            required: false,
            empty: EmptyMeans::AcceptDefault,
            default: DefaultSrc::Static("3000"),
            options: Vec::new(),
        },
    ];
    let r = FormGroup { repeat: Repeat::PerHostDut, title: "dut", fields };
    assert(r@.fields =~~= dut_group_of().fields);
    r
}

/// The advanced keys of one board.
pub fn dut_advanced_group() -> (r: FormGroup)
    ensures
        r@ == dut_advanced_group_of(),
{
    let fields: Vec<FieldDef> = vec![
        FieldDef {
            key: FieldKeyFrag::DutAdvanced("serial.baudrate"),
            kind: FieldKind::Text,
            label: "Serial baudrate (number)",
            required: false,
            empty: EmptyMeans::AcceptDefault,
            default: DefaultSrc::AdvancedNatural,
            options: Vec::new(),
        },
        FieldDef {
            key: FieldKeyFrag::DutAdvanced("target.login_pass"),
            kind: FieldKind::Text,
            label: "Target login password",
            required: false,
            empty: EmptyMeans::SkipInherit,
            default: DefaultSrc::AdvancedNatural,
            options: Vec::new(),
        },
        FieldDef {
            key: FieldKeyFrag::DutAdvanced("target.login_prompt"),
            kind: FieldKind::Text,
            label: "Target login prompt regex",
            required: false,
            empty: EmptyMeans::SkipInherit,
            default: DefaultSrc::AdvancedNatural,
            options: Vec::new(),
        },
        FieldDef {
            key: FieldKeyFrag::DutAdvanced("uboot.interrupt_char"),
            kind: FieldKind::Text,
            label: "U-Boot interrupt char",
            required: false,
            empty: EmptyMeans::AcceptDefault,
            default: DefaultSrc::AdvancedNatural,
            options: Vec::new(),
        },
        FieldDef {
            key: FieldKeyFrag::DutAdvanced("uboot.interrupt_strategy"),
            kind: FieldKind::Select,
            label: "U-Boot interrupt strategy",
            required: false,
            empty: EmptyMeans::AcceptDefault,
            default: DefaultSrc::AdvancedNatural,
            options: vec!["flood", "pattern"],
        },
        FieldDef {
            key: FieldKeyFrag::DutAdvanced("uboot.pattern"),
            kind: FieldKind::Text,
            label: "U-Boot interrupt pattern regex",
            required: false,
            empty: EmptyMeans::SkipInherit,
            default: DefaultSrc::AdvancedNatural,
            options: Vec::new(),
        },
        FieldDef {
            key: FieldKeyFrag::DutAdvanced("monitor.max_archived_logs"),
            kind: FieldKind::Text,
            label: "Max archived boot logs",
            required: false,
            empty: EmptyMeans::AcceptDefault,
            default: DefaultSrc::AdvancedNatural,
            options: Vec::new(),
        },
        FieldDef {
            key: FieldKeyFrag::DutAdvanced("monitor.reference_log"),
            kind: FieldKind::Text,
            label: "Reference boot log path",
            required: false,
            empty: EmptyMeans::AcceptDefault,
            default: DefaultSrc::ReferenceLogComposed,
            options: Vec::new(),
        },
        FieldDef {
            key: FieldKeyFrag::DutAdvanced("monitor.crash_keywords"),
            kind: FieldKind::Text,
            label: "Crash keywords (comma/newline separated)",
            required: false,
            empty: EmptyMeans::AcceptDefault,
            default: DefaultSrc::AdvancedNatural,
            options: Vec::new(),
        },
        FieldDef {
            key: FieldKeyFrag::DutAdvanced("flash.full_image_cmd"),
            kind: FieldKind::Text,
            label: "Flash full-image command",
            required: false,
            empty: EmptyMeans::AcceptDefault,
            default: DefaultSrc::AdvancedNatural,
            options: Vec::new(),
        },
        FieldDef {
            key: FieldKeyFrag::DutAdvanced("flash.kernel_image_cmd"),
            kind: FieldKind::Text,
            label: "Flash kernel-image command",
            required: false,
            empty: EmptyMeans::AcceptDefault,
            default: DefaultSrc::AdvancedNatural,
            options: Vec::new(),
        },
        FieldDef {
            key: FieldKeyFrag::DutAdvanced("flash.loader_bin"),
            kind: FieldKind::Text,
            label: "Flash loader binary path",
            required: false,
            empty: EmptyMeans::AcceptDefault,
            default: DefaultSrc::AdvancedNatural,
            options: Vec::new(),
        },
        FieldDef {
            key: FieldKeyFrag::DutAdvanced("control.dev_ctrl"),
            kind: FieldKind::Select,
            label: "Device control backend",
            required: false,
            empty: EmptyMeans::SkipInherit,
            default: DefaultSrc::AdvancedNatural,
            options: vec!["ch340-relay", "none"],
        },
        FieldDef {
            key: FieldKeyFrag::DutAdvanced("loader"),
            kind: FieldKind::Select,
            label: "Boot loader",
            required: false,
            empty: EmptyMeans::AcceptDefault,
            default: DefaultSrc::AdvancedNatural,
            options: vec!["uboot", "uefi"],
        },
    ];
    let r = FormGroup { repeat: Repeat::PerHostDut, title: "dut-advanced", fields };
    assert(r@.fields =~~= dut_advanced_group_of().fields);
    r
}

/// The advanced keys of the top-level sections.
pub fn advanced_group() -> (r: FormGroup)
    ensures
        r@ == advanced_group_of(),
{
    let fields: Vec<FieldDef> = vec![
        FieldDef {
            key: FieldKeyFrag::Advanced("monitor.hang_timeout"),
            kind: FieldKind::Text,
            label: "Hang timeout seconds",
            required: false,
            empty: EmptyMeans::AcceptDefault,
            default: DefaultSrc::AdvancedNatural,
            options: Vec::new(),
        },
        FieldDef {
            key: FieldKeyFrag::Advanced("monitor.max_log_file_size"),
            kind: FieldKind::Text,
            label: "Max log file size MB",
            required: false,
            empty: EmptyMeans::AcceptDefault,
            default: DefaultSrc::AdvancedNatural,
            options: Vec::new(),
        },
        FieldDef {
            key: FieldKeyFrag::Advanced("monitor.learner_stage_threshold"),
            kind: FieldKind::Text,
            label: "Learner stage threshold (0.0-1.0)",
            required: false,
            empty: EmptyMeans::AcceptDefault,
            default: DefaultSrc::AdvancedNatural,
            options: Vec::new(),
        },
        FieldDef {
            key: FieldKeyFrag::Advanced("monitor.learner_crash_threshold"),
            kind: FieldKind::Text,
            label: "Learner crash threshold (0.0-1.0)",
            required: false,
            empty: EmptyMeans::AcceptDefault,
            default: DefaultSrc::AdvancedNatural,
            options: Vec::new(),
        },
    ];
    let r = FormGroup { repeat: Repeat::Once, title: "advanced", fields };
    assert(r@.fields =~~= advanced_group_of().fields);
    r
}

/// The groups in the order in which they are asked.
pub open spec fn form_table() -> Seq<GroupView> {
    seq![
        host_count_group_of(),
        host_group_of(),
        dut_group_of(),
        dut_advanced_group_of(),
        advanced_group_of(),
    ]
}

/// The groups in the order in which they are asked.
pub fn form_groups() -> (r: Vec<FormGroup>)
    ensures
        groups_view(r@) == form_table(),
{
    let r = vec![
        host_count_group(),
        host_group(),
        dut_group(),
        dut_advanced_group(),
        advanced_group(),
    ];
    assert(groups_view(r@) =~= form_table());
    r
}

// ── Keys ─────────────────────────────────────────────────────────────
/// Which question of the whole form, by host and board.
#[derive(Clone, Copy, Debug, PartialEq, Eq, Hash, PartialOrd, Ord)]
pub enum FieldKey {
    HostCount,
    HostIp(usize),
    HostUser(usize),
    HostPass(usize),
    HostName(usize),
    DutCount(usize),
    DutName(usize, usize),
    DutPort(usize, usize),
    DutLoginUser(usize, usize),
    DutRelayGate(usize, usize),
    DutRelayType(usize, usize),
    DutRelayPort(usize, usize),
    DutRelayReset(usize, usize),
    DutRelayDownload(usize, usize),
    DutRelayPower(usize, usize),
    DutRelayResetTimeMs(usize, usize),
    DutRelayPowerOffTimeMs(usize, usize),
    /// An advanced key of the top-level sections.
    Advanced(&'static str),
    /// An advanced key of one board.
    DutAdvanced(usize, usize, &'static str),
}

/// The meaning of a [`FieldKey`].
pub enum KeyView {
    HostCount,
    HostIp(usize),
    HostUser(usize),
    HostPass(usize),
    HostName(usize),
    DutCount(usize),
    DutName(usize, usize),
    DutPort(usize, usize),
    DutLoginUser(usize, usize),
    DutRelayGate(usize, usize),
    DutRelayType(usize, usize),
    DutRelayPort(usize, usize),
    DutRelayReset(usize, usize),
    DutRelayDownload(usize, usize),
    DutRelayPower(usize, usize),
    DutRelayResetTimeMs(usize, usize),
    DutRelayPowerOffTimeMs(usize, usize),
    Advanced(Seq<char>),
    DutAdvanced(usize, usize, Seq<char>),
}

impl View for FieldKey {
    type V = KeyView;

    open spec fn view(&self) -> KeyView {
        match *self {
            FieldKey::HostCount => KeyView::HostCount,
            FieldKey::HostIp(h) => KeyView::HostIp(h),
            FieldKey::HostUser(h) => KeyView::HostUser(h),
            FieldKey::HostPass(h) => KeyView::HostPass(h),
            FieldKey::HostName(h) => KeyView::HostName(h),
            FieldKey::DutCount(h) => KeyView::DutCount(h),
            FieldKey::DutName(h, d) => KeyView::DutName(h, d),
            FieldKey::DutPort(h, d) => KeyView::DutPort(h, d),
            FieldKey::DutLoginUser(h, d) => KeyView::DutLoginUser(h, d),
            FieldKey::DutRelayGate(h, d) => KeyView::DutRelayGate(h, d),
            FieldKey::DutRelayType(h, d) => KeyView::DutRelayType(h, d),
            FieldKey::DutRelayPort(h, d) => KeyView::DutRelayPort(h, d),
            FieldKey::DutRelayReset(h, d) => KeyView::DutRelayReset(h, d),
            FieldKey::DutRelayDownload(h, d) => KeyView::DutRelayDownload(h, d),
            FieldKey::DutRelayPower(h, d) => KeyView::DutRelayPower(h, d),
            FieldKey::DutRelayResetTimeMs(h, d) => KeyView::DutRelayResetTimeMs(h, d),
            FieldKey::DutRelayPowerOffTimeMs(h, d) => KeyView::DutRelayPowerOffTimeMs(h, d),
            FieldKey::Advanced(k) => KeyView::Advanced(k@),
            FieldKey::DutAdvanced(h, d, k) => KeyView::DutAdvanced(h, d, k@),
        }
    }
}

/// The key of a question for a host and a board.
pub open spec fn key_of(frag: FragView, h: usize, d: usize) -> KeyView {
    match frag {
        FragView::HostCount => KeyView::HostCount,
        FragView::HostIp => KeyView::HostIp(h),
        FragView::HostUser => KeyView::HostUser(h),
        FragView::HostPass => KeyView::HostPass(h),
        FragView::HostName => KeyView::HostName(h),
        FragView::DutCount => KeyView::DutCount(h),
        FragView::DutName => KeyView::DutName(h, d),
        FragView::DutPort => KeyView::DutPort(h, d),
        FragView::DutLoginUser => KeyView::DutLoginUser(h, d),
        FragView::DutRelayGate => KeyView::DutRelayGate(h, d),
        FragView::DutRelayType => KeyView::DutRelayType(h, d),
        FragView::DutRelayPort => KeyView::DutRelayPort(h, d),
        FragView::DutRelayReset => KeyView::DutRelayReset(h, d),
        FragView::DutRelayDownload => KeyView::DutRelayDownload(h, d),
        FragView::DutRelayPower => KeyView::DutRelayPower(h, d),
        FragView::DutRelayResetTimeMs => KeyView::DutRelayResetTimeMs(h, d),
        FragView::DutRelayPowerOffTimeMs => KeyView::DutRelayPowerOffTimeMs(h, d),
        FragView::Advanced(k) => KeyView::Advanced(k),
        FragView::DutAdvanced(k) => KeyView::DutAdvanced(h, d, k),
    }
}

impl FieldKeyFrag {
    /// The key of the question for a host and a board.
    pub fn key(&self, h: usize, d: usize) -> (r: FieldKey)
        ensures
            r@ == key_of(self@, h, d),
    {
        match *self {
            FieldKeyFrag::HostCount => FieldKey::HostCount,
            FieldKeyFrag::HostIp => FieldKey::HostIp(h),
            FieldKeyFrag::HostUser => FieldKey::HostUser(h),
            FieldKeyFrag::HostPass => FieldKey::HostPass(h),
            FieldKeyFrag::HostName => FieldKey::HostName(h),
            FieldKeyFrag::DutCount => FieldKey::DutCount(h),
            FieldKeyFrag::DutName => FieldKey::DutName(h, d),
            FieldKeyFrag::DutPort => FieldKey::DutPort(h, d),
            FieldKeyFrag::DutLoginUser => FieldKey::DutLoginUser(h, d),
            FieldKeyFrag::DutRelayGate => FieldKey::DutRelayGate(h, d),
            FieldKeyFrag::DutRelayType => FieldKey::DutRelayType(h, d),
            FieldKeyFrag::DutRelayPort => FieldKey::DutRelayPort(h, d),
            FieldKeyFrag::DutRelayReset => FieldKey::DutRelayReset(h, d),
            FieldKeyFrag::DutRelayDownload => FieldKey::DutRelayDownload(h, d),
            FieldKeyFrag::DutRelayPower => FieldKey::DutRelayPower(h, d),
            FieldKeyFrag::DutRelayResetTimeMs => FieldKey::DutRelayResetTimeMs(h, d),
            FieldKeyFrag::DutRelayPowerOffTimeMs => FieldKey::DutRelayPowerOffTimeMs(h, d),
            FieldKeyFrag::Advanced(k) => FieldKey::Advanced(k),
            FieldKeyFrag::DutAdvanced(k) => FieldKey::DutAdvanced(h, d, k),
        }
    }
}

/// The key of a host question for another host; every other key as it is.
pub open spec fn shifted_host(k: KeyView, h: usize) -> KeyView {
    match k {
        KeyView::HostIp(_) => KeyView::HostIp(h),
        KeyView::HostUser(_) => KeyView::HostUser(h),
        KeyView::HostPass(_) => KeyView::HostPass(h),
        KeyView::HostName(_) => KeyView::HostName(h),
        KeyView::DutCount(_) => KeyView::DutCount(h),
        other => other,
    }
}

/// The key of a board question for another board; every other key as it is.
pub open spec fn shifted_dut(k: KeyView, h: usize, d: usize) -> KeyView {
    match k {
        KeyView::DutName(..) => KeyView::DutName(h, d),
        KeyView::DutPort(..) => KeyView::DutPort(h, d),
        KeyView::DutLoginUser(..) => KeyView::DutLoginUser(h, d),
        KeyView::DutRelayGate(..) => KeyView::DutRelayGate(h, d),
        KeyView::DutRelayType(..) => KeyView::DutRelayType(h, d),
        KeyView::DutRelayPort(..) => KeyView::DutRelayPort(h, d),
        KeyView::DutRelayReset(..) => KeyView::DutRelayReset(h, d),
        KeyView::DutRelayDownload(..) => KeyView::DutRelayDownload(h, d),
        KeyView::DutRelayPower(..) => KeyView::DutRelayPower(h, d),
        KeyView::DutRelayResetTimeMs(..) => KeyView::DutRelayResetTimeMs(h, d),
        KeyView::DutRelayPowerOffTimeMs(..) => KeyView::DutRelayPowerOffTimeMs(h, d),
        KeyView::DutAdvanced(_, _, n) => KeyView::DutAdvanced(h, d, n),
        other => other,
    }
}

impl FieldKey {
    /// The key of a host question for another host; every other key as it is.
    pub fn shift_host_count(k: FieldKey, hi: usize) -> (r: FieldKey)
        ensures
            r@ == shifted_host(k@, hi),
    {
        match k {
            FieldKey::HostIp(_) => FieldKey::HostIp(hi),
            FieldKey::HostUser(_) => FieldKey::HostUser(hi),
            FieldKey::HostPass(_) => FieldKey::HostPass(hi),
            FieldKey::HostName(_) => FieldKey::HostName(hi),
            FieldKey::DutCount(_) => FieldKey::DutCount(hi),
            other => other,
        }
    }

    /// The key of a board question for another board; every other key as it is.
    pub fn shift_host_dut(k: FieldKey, hi: usize, di: usize) -> (r: FieldKey)
        ensures
            r@ == shifted_dut(k@, hi, di),
    {
        match k {
            FieldKey::DutName(..) => FieldKey::DutName(hi, di),
            FieldKey::DutPort(..) => FieldKey::DutPort(hi, di),
            FieldKey::DutLoginUser(..) => FieldKey::DutLoginUser(hi, di),
            FieldKey::DutRelayGate(..) => FieldKey::DutRelayGate(hi, di),
            FieldKey::DutRelayType(..) => FieldKey::DutRelayType(hi, di),
            FieldKey::DutRelayPort(..) => FieldKey::DutRelayPort(hi, di),
            FieldKey::DutRelayReset(..) => FieldKey::DutRelayReset(hi, di),
            FieldKey::DutRelayDownload(..) => FieldKey::DutRelayDownload(hi, di),
            FieldKey::DutRelayPower(..) => FieldKey::DutRelayPower(hi, di),
            FieldKey::DutRelayResetTimeMs(..) => FieldKey::DutRelayResetTimeMs(hi, di),
            FieldKey::DutRelayPowerOffTimeMs(..) => FieldKey::DutRelayPowerOffTimeMs(hi, di),
            FieldKey::DutAdvanced(_, _, n) => FieldKey::DutAdvanced(hi, di, n),
            other => other,
        }
    }

    /// Whether two keys are the same.
    pub fn same_as(&self, other: &FieldKey) -> (r: bool)
        ensures
            r == (self@ == other@),
    {
        match (*self, *other) {
            (FieldKey::HostCount, FieldKey::HostCount) => true,
            (FieldKey::HostIp(a), FieldKey::HostIp(b)) => a == b,
            (FieldKey::HostUser(a), FieldKey::HostUser(b)) => a == b,
            (FieldKey::HostPass(a), FieldKey::HostPass(b)) => a == b,
            (FieldKey::HostName(a), FieldKey::HostName(b)) => a == b,
            (FieldKey::DutCount(a), FieldKey::DutCount(b)) => a == b,
            (FieldKey::DutName(a, c), FieldKey::DutName(b, d)) => a == b && c == d,
            (FieldKey::DutPort(a, c), FieldKey::DutPort(b, d)) => a == b && c == d,
            (FieldKey::DutLoginUser(a, c), FieldKey::DutLoginUser(b, d)) => a == b && c == d,
            (FieldKey::DutRelayGate(a, c), FieldKey::DutRelayGate(b, d)) => a == b && c == d,
            (FieldKey::DutRelayType(a, c), FieldKey::DutRelayType(b, d)) => a == b && c == d,
            (FieldKey::DutRelayPort(a, c), FieldKey::DutRelayPort(b, d)) => a == b && c == d,
            (FieldKey::DutRelayReset(a, c), FieldKey::DutRelayReset(b, d)) => a == b && c == d,
            (FieldKey::DutRelayDownload(a, c), FieldKey::DutRelayDownload(b, d)) => a == b && c
                == d,
            (FieldKey::DutRelayPower(a, c), FieldKey::DutRelayPower(b, d)) => a == b && c == d,
            (FieldKey::DutRelayResetTimeMs(a, c), FieldKey::DutRelayResetTimeMs(b, d)) => a == b
                && c == d,
            (FieldKey::DutRelayPowerOffTimeMs(a, c), FieldKey::DutRelayPowerOffTimeMs(b, d)) => a
                == b && c == d,
            (FieldKey::Advanced(a), FieldKey::Advanced(b)) => same(a, b),
            (FieldKey::DutAdvanced(a, c, k), FieldKey::DutAdvanced(b, d, l)) => a == b && c == d
                && same(k, l),
            _ => false,
        }
    }
}

/// Moving a host question to another host and back gives the question again.
pub proof fn lemma_shift_host_back(h: usize, other: usize)
    ensures
        shifted_host(shifted_host(KeyView::HostIp(h), other), h) == KeyView::HostIp(h),
        shifted_host(shifted_host(KeyView::HostUser(h), other), h) == KeyView::HostUser(h),
        shifted_host(shifted_host(KeyView::HostPass(h), other), h) == KeyView::HostPass(h),
        shifted_host(shifted_host(KeyView::HostName(h), other), h) == KeyView::HostName(h),
        shifted_host(shifted_host(KeyView::DutCount(h), other), h) == KeyView::DutCount(h),
{
}

/// Two different questions about one board stay different for another board.
pub proof fn lemma_shift_dut_apart(a: FragView, b: FragView, h: usize, d: usize, h2: usize, d2: usize)
    requires
        key_of(a, h, d) != key_of(b, h, d),
    ensures
        shifted_dut(key_of(a, h, d), h2, d2) != shifted_dut(key_of(b, h, d), h2, d2),
{
}

// ── Values ───────────────────────────────────────────────────────────
/// What was typed into the fields of a form, by key.
#[derive(Debug, PartialEq)]
pub struct FieldValues {
    entries: Vec<(FieldKey, String)>,
}

/// The entries of [`FieldValues`].
pub type Typed = Seq<(KeyView, Seq<char>)>;

/// The value of a key, from entry `i` on.
pub open spec fn typed_from(v: Typed, key: KeyView, i: int) -> Option<Seq<char>>
    decreases v.len() - i,
{
    if i < 0 || i >= v.len() {
        None
    } else if v[i].0 == key {
        Some(v[i].1)
    } else {
        typed_from(v, key, i + 1)
    }
}

/// The value of a key.
pub open spec fn typed_value(v: Typed, key: KeyView) -> Option<Seq<char>> {
    typed_from(v, key, 0)
}

/// The entries with the value of a key put in, in its place from entry `i` on
/// or at the end.
pub open spec fn type_in_from(v: Typed, key: KeyView, value: Seq<char>, i: int) -> Typed
    decreases v.len() - i,
{
    if i < 0 || i >= v.len() {
        v.push((key, value))
    } else if v[i].0 == key {
        v.update(i, (key, value))
    } else {
        type_in_from(v, key, value, i + 1)
    }
}

/// The entries with the value of a key put in.
pub open spec fn type_in(v: Typed, key: KeyView, value: Seq<char>) -> Typed {
    type_in_from(v, key, value, 0)
}

/// The board names that were typed into the first `n` fields, empty ones too.
pub open spec fn typed_names(v: Typed, n: int) -> Seq<Seq<char>>
    decreases n,
{
    if n <= 0 {
        Seq::empty()
    } else if v[n - 1].0 is DutName {
        typed_names(v, n - 1).push(trimmed(v[n - 1].1))
    } else {
        typed_names(v, n - 1)
    }
}

impl View for FieldValues {
    type V = Typed;

    closed spec fn view(&self) -> Typed {
        Seq::new(self.entries@.len(), |i: int| (self.entries@[i].0@, self.entries@[i].1@))
    }
}

proof fn lemma_type_in_from(v: Typed, key: KeyView, value: Seq<char>, other: KeyView, i: int)
    requires
        0 <= i <= v.len(),
    ensures
        typed_from(type_in_from(v, key, value, i), other, i) == (if other == key {
            Some(value)
        } else {
            typed_from(v, other, i)
        }),
        forall|k: int| 0 <= k < i ==> #[trigger] type_in_from(v, key, value, i)[k] == v[k],
        type_in_from(v, key, value, i).len() >= v.len(),
    decreases v.len() - i,
{
    let w = type_in_from(v, key, value, i);
    if i < v.len() && v[i].0 != key {
        lemma_type_in_from(v, key, value, other, i + 1);
        assert(w[i] == v[i]);
    } else if i < v.len() {
        lemma_typed_same(v, w, other, i + 1);
    } else {
        assert(typed_from(w, other, i + 1) is None);
    }
}

proof fn lemma_typed_same(v: Typed, w: Typed, key: KeyView, i: int)
    requires
        v.len() == w.len(),
        0 <= i <= v.len(),
        forall|k: int| i <= k < v.len() ==> #[trigger] v[k] == w[k],
    ensures
        typed_from(v, key, i) == typed_from(w, key, i),
    decreases v.len() - i,
{
    if i < v.len() {
        assert(v[i] == w[i]);
        lemma_typed_same(v, w, key, i + 1);
    }
}

/// Reading a key after a value was put in: the new value for the key that was
/// put in, and what was there before for every other key.
pub proof fn lemma_typed_back(v: Typed, key: KeyView, value: Seq<char>, other: KeyView)
    ensures
        typed_value(type_in(v, key, value), other) == (if other == key {
            Some(value)
        } else {
            typed_value(v, other)
        }),
{
    lemma_type_in_from(v, key, value, other, 0);
}

impl FieldValues {
    /// No values.
    pub fn new() -> (r: Self)
        ensures
            r@ == Typed::empty(),
    {
        let r = FieldValues { entries: Vec::new() };
        assert(r@ =~= Typed::empty());
        r
    }

    /// The value of a key.
    pub fn get(&self, key: &FieldKey) -> (r: Option<&String>)
        ensures
            crate::text_map::ref_text(r) == typed_value(self@, key@),
    {
        let mut i: usize = 0;
        while i < self.entries.len()
            invariant
                i <= self.entries.len(),
                typed_from(self@, key@, i as int) == typed_value(self@, key@),
            decreases self.entries.len() - i,
        {
            if self.entries[i].0.same_as(key) {
                return Some(&self.entries[i].1);
            }
            i += 1;
        }
        None
    }

    /// The board names that were typed, empty ones too.
    pub fn dut_names(&self) -> (r: Vec<String>)
        ensures
            texts(r@) == typed_names(self@, self@.len() as int),
    {
        let ghost v = self@;
        let mut out: Vec<String> = Vec::new();
        assert(texts(out@) =~= Seq::empty());
        let mut i: usize = 0;
        while i < self.entries.len()
            invariant
                i <= self.entries.len(),
                v == self@,
                texts(out@) == typed_names(v, i as int),
            decreases self.entries.len() - i,
        {
            broadcast use lemma_texts_push;

            assert(v[i as int] == (self.entries@[i as int].0@, self.entries@[i as int].1@));
            match self.entries[i].0 {
                FieldKey::DutName(..) => {
                    out.push(owned(trim(self.entries[i].1.as_str())));
                },
                _ => {},
            }
            i += 1;
        }
        out
    }

    /// Puts the value of a key in.
    pub fn insert(&mut self, key: FieldKey, value: String)
        ensures
            final(self)@ == type_in(old(self)@, key@, value@),
    {
        let ghost v = self@;
        let mut i: usize = 0;
        while i < self.entries.len()
            invariant
                i <= self.entries.len(),
                self@ == v,
                v == old(self)@,
                type_in_from(v, key@, value@, i as int) == type_in(v, key@, value@),
            decreases self.entries.len() - i,
        {
            if self.entries[i].0.same_as(&key) {
                self.entries[i] = (key, value);
                assert(self@ =~= v.update(i as int, (key@, value@)));
                return;
            }
            i += 1;
        }
        self.entries.push((key, value));
        assert(self@ =~= v.push((key@, value@)));
    }
}

} // verus!
