//! The commands of `cx` and their arguments.
//!
//! Times are in seconds; like percentages they may have fractions.

use vstd::prelude::*;

use crate::doubles::Double;
use crate::ranges::StatsRange;
use crate::text::copy_all;

verus! {

/// A management command.
#[derive(Debug)]
pub enum Command {
    /// Query every slot and show current availability.
    Status(StatusArgs),
    /// Show local Codex token usage totals from the Codex state database.
    Stats(StatsArgs),
    /// Plan and run short quota-window priming requests.
    Prime(PrimeArgs),
    /// Print the best slot name for scripting.
    Select(SlotQueryArgs),
    /// Create or update a slot.
    Add(AddArgs),
    /// Remove a slot from rotation.
    Remove(RemoveArgs),
    /// Run `codex login` inside a slot.
    Login(LoginArgs),
    /// Manage Keychain-backed Personal Access Tokens for slots.
    Pat(PatArgs),
    /// Launch ChatGPT Desktop through a selected slot.
    Desktop(DesktopArgs),
    /// Export and import portable profile-manager transfer bundles.
    Transfer(TransferArgs),
    /// Manage target-specific slot groups and overrides.
    Target(TargetArgs),
    /// Validate the local profile-manager layout.
    Doctor(DoctorArgs),
    /// Merge per-slot SQLite indexes into the shared ~/.codex/sqlite database.
    MergeSqlite(MergeSqliteArgs),
    /// Install cx into ~/.local/bin.
    Install(InstallArgs),
    /// Generate launcher shell completion scripts.
    Completions(CompletionsArgs),
    /// Internal dynamic completion helper.
    Complete(CompleteArgs),
}

/// A shell that completions are generated for.
#[derive(Clone, Copy, Debug, PartialEq, Eq, Structural)]
pub enum CompletionShell {
    Fish,
    Zsh,
    Bash,
}

/// What is completed.
#[derive(Clone, Copy, Debug, PartialEq, Eq, Structural)]
pub enum CompleteKind {
    Slots,
    Targets,
    Words,
}

/// The order of status reports.
#[derive(Clone, Copy, Debug, PartialEq, Eq, Structural)]
pub enum StatusSort {
    /// Show the best-scoring slots first.
    Score,
    /// Preserve rotation.txt or explicit argument order.
    Rotation,
}

/// The arguments of `cx completions`.
#[derive(Debug)]
pub struct CompletionsArgs {
    /// Shell to generate completions for.
    pub shell: CompletionShell,
}

/// The arguments of `cx complete`.
#[derive(Debug)]
pub struct CompleteArgs {
    /// Dynamic candidate kind.
    pub kind: CompleteKind,
    /// Profile-manager directory. Defaults to ~/.codex/profile-manager.
    pub manager_dir: Option<String>,
    /// Shell requesting word completion.
    pub shell: Option<CompletionShell>,
    /// Active word index reported by the shell.
    pub cursor: Option<usize>,
    /// Active token prefix reported by the shell.
    pub current: Option<String>,
    /// Full shell words for runtime completion.
    pub words: Vec<String>,
}

/// The arguments of commands that ask for the usage of slots.
#[derive(Debug)]
pub struct SlotQueryArgs {
    /// Profile-manager directory. Defaults to ~/.codex/profile-manager.
    pub manager_dir: Option<String>,
    /// Target config from targets/<name>.toml. Defaults to rotation.txt.
    pub target: Option<String>,
    /// Per-slot usage request timeout in seconds.
    pub timeout: Double,
    /// Maximum number of slot usage requests to run at once.
    pub jobs: usize,
    /// Retry transient usage request failures this many times.
    pub retries: usize,
    /// Skip the fresh usage cache and query live usage now.
    pub no_cache: bool,
    /// Print JSON instead of a human table.
    pub json: bool,
    /// Slot names. Defaults to rotation.txt.
    pub slots: Vec<String>,
}

/// The arguments of `cx status`.
#[derive(Debug)]
pub struct StatusArgs {
    pub query: SlotQueryArgs,
    /// Disable the interactive progress line.
    pub no_progress: bool,
    /// Sort status output.
    pub sort: StatusSort,
}

/// The arguments of `cx stats`.
#[derive(Debug)]
pub struct StatsArgs {
    /// Profile-manager directory. Defaults to ~/.codex/profile-manager.
    pub manager_dir: Option<String>,
    /// Print JSON instead of a human table.
    pub json: bool,
    /// Target config from targets/<name>.toml. Defaults to all known local usage.
    pub target: Option<String>,
    /// Break each period down by inferred slot/account.
    pub by_slot: bool,
    /// Also show best-effort OpenAI API price estimates.
    pub price: bool,
    /// Skip price estimates even if another price flag is supplied.
    pub no_price: bool,
    /// Show price estimates and force-refresh the cached OpenAI pricing table.
    pub refresh_prices: bool,
    /// Scan rollout token_count events, save a calibrated price-estimate token mix, and exit.
    pub calibrate: bool,
    /// Show price estimates from this pricing page.
    pub price_url: Option<String>,
    /// Time range used by the chart and model mix: all, 17d, 2w, 3m, YYYY-MM-DD, or YYYY-MM-DD..YYYY-MM-DD.
    pub range: StatsRange,
    /// Slot names to filter. Defaults to all known local Codex usage.
    pub slots: Vec<String>,
}

/// The arguments of `cx prime`.
#[derive(Debug)]
pub struct PrimeArgs {
    pub command: PrimeCommand,
}

/// The commands below `cx prime`.
#[derive(Debug)]
pub enum PrimeCommand {
    /// Show data-derived daily prime times.
    Plan(PrimePlanArgs),
    /// Install a macOS LaunchAgent that runs prime checks at planned times.
    Install(PrimeInstallArgs),
    /// Run one prime check now.
    Run(PrimeRunArgs),
    /// Show saved prime config and last run state.
    Status(PrimeStatusArgs),
    /// Uninstall the macOS LaunchAgent.
    Uninstall(PrimeUninstallArgs),
}

/// The arguments of `cx prime plan`.
#[derive(Debug)]
pub struct PrimePlanArgs {
    pub schedule: PrimeScheduleArgs,
    /// Print JSON instead of a human report.
    pub json: bool,
}

/// The arguments of `cx prime install`.
#[derive(Debug)]
pub struct PrimeInstallArgs {
    pub schedule: PrimeScheduleArgs,
    /// Target config whose slots and overrides are used by prime runs.
    pub target: Option<String>,
    /// Restrict prime runs to these slots. Defaults to target slots or rotation.txt.
    pub slots: Vec<String>,
    /// Maximum slots to prime in a single run. Defaults to every eligible slot.
    pub max_slots: Option<usize>,
    /// Real Codex binary used by launchd runs.
    pub codex_bin: Option<String>,
    /// Model to use for the tiny priming request. Defaults to Codex config.
    pub model: Option<String>,
    /// Prompt used for the tiny priming request.
    pub prompt: String,
    /// Per-slot usage request timeout in seconds.
    pub timeout: Double,
    /// Maximum number of slot usage requests to run at once.
    pub jobs: usize,
    /// Retry transient usage request failures this many times.
    pub retries: usize,
    /// Seconds to poll live usage after each prime request.
    pub verify_timeout: u64,
    /// Maximum Codex requests to send per slot while trying to verify active.
    pub max_requests: usize,
    /// Minimum weekly remaining percentage required before sending a prime.
    pub min_weekly_remaining: Double,
    /// Prime immediately after installing.
    pub run_now: bool,
}

/// The arguments of `cx prime run`.
#[derive(Debug)]
pub struct PrimeRunArgs {
    /// Profile-manager directory. Defaults to ~/.codex/profile-manager.
    pub manager_dir: Option<String>,
    /// Target config whose slots and overrides are used by this run.
    pub target: Option<String>,
    /// Restrict this run to these slots.
    pub slots: Vec<String>,
    /// Maximum slots to prime in this run.
    pub max_slots: Option<usize>,
    /// Real Codex binary.
    pub codex_bin: Option<String>,
    /// Model to use for the tiny priming request.
    pub model: Option<String>,
    /// Prompt used for the tiny priming request.
    pub prompt: Option<String>,
    /// Seconds to poll live usage after each prime request.
    pub verify_timeout: Option<u64>,
    /// Maximum Codex requests to send per slot while trying to verify active.
    pub max_requests: Option<usize>,
    /// Send a request even when the 5h window already looks active.
    pub force: bool,
    /// Print what would run without sending requests.
    pub dry_run: bool,
    /// Print JSON instead of a human report.
    pub json: bool,
}

/// The arguments of `cx prime status`.
#[derive(Debug)]
pub struct PrimeStatusArgs {
    /// Profile-manager directory. Defaults to ~/.codex/profile-manager.
    pub manager_dir: Option<String>,
    /// Print JSON instead of a human report.
    pub json: bool,
}

/// The arguments of `cx prime uninstall`.
#[derive(Debug)]
pub struct PrimeUninstallArgs {
    /// Profile-manager directory. Defaults to ~/.codex/profile-manager.
    pub manager_dir: Option<String>,
    /// Also remove saved prime config and state.
    pub delete_state: bool,
}

/// How prime times are planned.
#[derive(Debug)]
pub struct PrimeScheduleArgs {
    /// Profile-manager directory. Defaults to ~/.codex/profile-manager.
    pub manager_dir: Option<String>,
    /// Days of local history used to infer heavy work hours.
    pub days: u32,
    /// Minutes before a heavy work hour to send the tiny request.
    pub lead_minutes: u32,
    /// Maximum daily launchd times to install.
    pub max_times: usize,
    /// Ignore hours below this token volume unless all hours are below it.
    pub min_tokens: u64,
}

/// The arguments of `cx add`.
#[derive(Debug)]
pub struct AddArgs {
    /// Profile-manager directory. Defaults to ~/.codex/profile-manager.
    pub manager_dir: Option<String>,
    /// Slot name to create or update.
    pub slot: String,
    /// Add the slot to rotation.txt.
    pub rotate: bool,
    /// Copy auth.json/current/accounts from ~/.codex into the new slot.
    pub from_current: bool,
    /// Per-slot Codex config override, passed as `codex -c key=value`.
    pub sets: Vec<String>,
    /// Per-slot environment variable, stored in env.conf.
    pub envs: Vec<String>,
}

/// The arguments of `cx remove`.
#[derive(Debug)]
pub struct RemoveArgs {
    /// Profile-manager directory. Defaults to ~/.codex/profile-manager.
    pub manager_dir: Option<String>,
    /// Slot name to remove.
    pub slot: String,
    /// Also delete the slot directory and its auth files.
    pub delete_files: bool,
}

/// The arguments of `cx login`.
#[derive(Debug)]
pub struct LoginArgs {
    /// Profile-manager directory. Defaults to ~/.codex/profile-manager.
    pub manager_dir: Option<String>,
    /// Path to the real Codex binary.
    pub codex_bin: Option<String>,
    /// Slot name to log into.
    pub slot: String,
    /// Extra args forwarded to `codex login`.
    pub args: Vec<String>,
}

/// The arguments of `cx pat`.
#[derive(Debug)]
pub struct PatArgs {
    pub command: PatCommand,
}

/// The commands below `cx pat`.
#[derive(Debug)]
pub enum PatCommand {
    /// Bind a Keychain PAT fallback to a slot and hydrate metadata.
    Add(PatAddArgs),
    /// Verify the Keychain entry exists and the PAT is valid.
    Check(PatCheckArgs),
    /// Remove the Keychain reference and metadata cache from a slot.
    Remove(PatRemoveArgs),
    /// Force re-hydrate metadata from the whoami endpoint.
    Refresh(PatRefreshArgs),
}

/// The arguments of `cx pat add`.
#[derive(Debug)]
pub struct PatAddArgs {
    pub manager_dir: Option<String>,
    /// Slot name.
    pub slot: String,
    /// Keychain service name (e.g. codex-pat).
    pub service: String,
    /// Keychain account name (e.g. the user's email).
    pub account: String,
    /// Accepted without effect.
    pub force: bool,
}

/// The arguments of `cx pat check`.
#[derive(Debug)]
pub struct PatCheckArgs {
    pub manager_dir: Option<String>,
    /// Slot name.
    pub slot: String,
}

/// The arguments of `cx pat remove`.
#[derive(Debug)]
pub struct PatRemoveArgs {
    pub manager_dir: Option<String>,
    /// Slot name.
    pub slot: String,
}

/// The arguments of `cx pat refresh`.
#[derive(Debug)]
pub struct PatRefreshArgs {
    pub manager_dir: Option<String>,
    /// Slot name.
    pub slot: String,
}

/// The arguments of `cx desktop`.
#[derive(Debug)]
pub struct DesktopArgs {
    /// Profile-manager directory. Defaults to ~/.codex/profile-manager.
    pub manager_dir: Option<String>,
    /// Path to the ChatGPT Desktop executable or .app bundle.
    pub app_bin: Option<String>,
    /// Force a specific slot instead of selecting from rotation or target.
    pub slot: Option<String>,
    /// Target config from targets/<name>.toml.
    pub target: Option<String>,
    /// Print slot selection details before launch.
    pub cx_debug: bool,
    /// Wait for ChatGPT Desktop to exit instead of returning after launch.
    pub wait: bool,
    /// Launch even when another ChatGPT Desktop process is already running.
    pub allow_parallel: bool,
    /// Extra args forwarded to the ChatGPT Desktop executable.
    pub args: Vec<String>,
}

/// The arguments of `cx transfer`.
#[derive(Debug)]
pub struct TransferArgs {
    pub command: TransferCommand,
}

/// The commands below `cx transfer`.
#[derive(Debug)]
pub enum TransferCommand {
    /// Export rotation slots and login state into a portable directory bundle.
    Export(TransferExportArgs),
    /// Import a portable directory bundle into this machine's profile-manager.
    Import(TransferImportArgs),
}

/// The arguments of `cx transfer export`.
#[derive(Debug)]
pub struct TransferExportArgs {
    /// Profile-manager directory. Defaults to ~/.codex/profile-manager.
    pub manager_dir: Option<String>,
    /// Output directory. Must be outside the live ~/.codex tree.
    pub out: String,
    /// Replace an existing output directory.
    pub replace: bool,
    /// Slot names to export. Defaults to rotation.txt.
    pub slots: Vec<String>,
}

/// The arguments of `cx transfer import`.
#[derive(Debug)]
pub struct TransferImportArgs {
    /// Profile-manager directory. Defaults to ~/.codex/profile-manager.
    pub manager_dir: Option<String>,
    /// Replace existing destination files.
    pub replace: bool,
    /// Bundle directory created by `cx transfer export`.
    pub bundle: String,
}

/// The arguments of `cx target`.
#[derive(Debug)]
pub struct TargetArgs {
    pub command: TargetCommand,
}

/// The commands below `cx target`.
#[derive(Debug)]
pub enum TargetCommand {
    /// List configured targets.
    List(TargetListArgs),
    /// Show one target config.
    Show(TargetShowArgs),
    /// Create or update a target config.
    Add(TargetAddArgs),
    /// Remove a target config.
    Remove(TargetRemoveArgs),
}

/// The arguments of `cx target list`.
#[derive(Debug)]
pub struct TargetListArgs {
    /// Profile-manager directory. Defaults to ~/.codex/profile-manager.
    pub manager_dir: Option<String>,
    /// Print JSON instead of plain names.
    pub json: bool,
}

/// The arguments of `cx target show`.
#[derive(Debug)]
pub struct TargetShowArgs {
    /// Profile-manager directory. Defaults to ~/.codex/profile-manager.
    pub manager_dir: Option<String>,
    /// Print JSON instead of human output.
    pub json: bool,
    /// Target name.
    pub target: String,
}

/// The arguments of `cx target add`.
#[derive(Debug)]
pub struct TargetAddArgs {
    /// Profile-manager directory. Defaults to ~/.codex/profile-manager.
    pub manager_dir: Option<String>,
    /// Target name.
    pub target: String,
    /// Target-specific Codex config override, passed after slot overrides.
    pub sets: Vec<String>,
    /// Target-specific environment variable, merged after slot env.conf.
    pub envs: Vec<String>,
    /// Slots used by this target. Defaults to rotation.txt when omitted.
    pub slots: Vec<String>,
}

/// The arguments of `cx target remove`.
#[derive(Debug)]
pub struct TargetRemoveArgs {
    /// Profile-manager directory. Defaults to ~/.codex/profile-manager.
    pub manager_dir: Option<String>,
    /// Target name.
    pub target: String,
}

/// The arguments of `cx doctor`.
#[derive(Debug)]
pub struct DoctorArgs {
    /// Profile-manager directory. Defaults to ~/.codex/profile-manager.
    pub manager_dir: Option<String>,
    /// Also query the live usage endpoint.
    pub online: bool,
    /// Per-slot usage request timeout in seconds.
    pub timeout: Double,
    /// Maximum number of slot usage requests to run at once.
    pub jobs: usize,
    /// Retry transient usage request failures this many times.
    pub retries: usize,
}

/// The arguments of `cx install`.
#[derive(Debug)]
pub struct InstallArgs {
    /// Directory to install cx into.
    pub bin_dir: Option<String>,
    /// Replace an existing cx binary.
    pub force: bool,
}

/// The arguments of `cx merge-sqlite`.
#[derive(Debug)]
pub struct MergeSqliteArgs {
    /// Profile-manager directory. Defaults to ~/.codex/profile-manager.
    pub manager_dir: Option<String>,
    /// Show what would be merged without writing.
    pub dry_run: bool,
}

/// The arguments of `cx service`.
#[derive(Debug)]
pub struct ServiceArgs {
    pub command: ServiceCommand,
}

/// The commands below `cx service`.
#[derive(Debug)]
pub enum ServiceCommand {
    /// Start the cx service supervisor in the background.
    Start(ServiceStartArgs),
    /// Run the cx service supervisor in the foreground.
    Run(ServiceRunArgs),
    /// Stop the cx service supervisor and its children.
    Stop(ServiceStopArgs),
    /// Show cx service supervisor status.
    Status(ServiceStatusArgs),
    /// Print recent cx service logs.
    Logs(ServiceLogsArgs),
    /// Configure service-scoped secrets.
    Token(ServiceTokenArgs),
    /// Install a macOS launchd service.
    Install(ServiceInstallArgs),
    /// Remove the macOS launchd service.
    Uninstall(ServiceUninstallArgs),
}

/// The arguments of `cx service start`.
#[derive(Debug)]
pub struct ServiceStartArgs {
    pub spec: ServiceSpecArgs,
    /// Print JSON instead of human output.
    pub json: bool,
}

/// The arguments of `cx service run`.
#[derive(Debug)]
pub struct ServiceRunArgs {
    pub spec: ServiceSpecArgs,
}

/// The arguments of `cx service install`.
#[derive(Debug)]
pub struct ServiceInstallArgs {
    pub spec: ServiceSpecArgs,
    /// Start the launchd service after installing it.
    pub start: bool,
}

/// What a service runs.
#[derive(Debug)]
pub struct ServiceSpecArgs {
    /// Profile-manager directory. Defaults to ~/.codex/profile-manager.
    pub manager_dir: Option<String>,
    /// Path to the real Codex binary.
    pub codex_bin: Option<String>,
    /// Force a specific slot instead of selecting from rotation or target.
    pub slot: Option<String>,
    /// Target config from targets/<name>.toml.
    pub target: Option<String>,
    /// WebSocket listen URL for Codex app-server. Only loopback ws:// URLs are accepted.
    pub listen: String,
    /// Do not run the Telegram adapter.
    pub no_telegram: bool,
    /// Environment variable containing the Telegram bot token.
    pub telegram_bot_token_env: String,
    /// Allowed Telegram chat id. Repeat for multiple chats.
    pub allow_chats: Vec<i64>,
    /// Acquire an active lease for incoming Telegram messages.
    pub acquire_lease: bool,
    /// Steal an existing lease when acquiring for Telegram.
    pub steal: bool,
    /// Log safe Telegram update summaries to the service log.
    pub log_updates: bool,
    /// App-server WebSocket timeout in seconds for Telegram Codex turns, as it is written.
    pub app_server_timeout: String,
}

/// The arguments of `cx service stop`.
#[derive(Debug)]
pub struct ServiceStopArgs {
    /// Profile-manager directory. Defaults to ~/.codex/profile-manager.
    pub manager_dir: Option<String>,
    /// Seconds to wait for the service and child processes to exit.
    pub wait_timeout: Double,
    /// Send SIGKILL if graceful stop does not finish before --wait-timeout.
    pub force: bool,
    /// Print JSON instead of human output.
    pub json: bool,
}

/// The arguments of `cx service status`.
#[derive(Debug)]
pub struct ServiceStatusArgs {
    /// Profile-manager directory. Defaults to ~/.codex/profile-manager.
    pub manager_dir: Option<String>,
    /// Print JSON instead of human output.
    pub json: bool,
}

/// The arguments of `cx service logs`.
#[derive(Debug)]
pub struct ServiceLogsArgs {
    /// Profile-manager directory. Defaults to ~/.codex/profile-manager.
    pub manager_dir: Option<String>,
    /// Number of recent log lines to print.
    pub lines: usize,
}

/// The arguments of `cx service uninstall`.
#[derive(Debug)]
pub struct ServiceUninstallArgs {
    /// Profile-manager directory. Defaults to ~/.codex/profile-manager.
    pub manager_dir: Option<String>,
}

/// The arguments of `cx service token`.
#[derive(Debug)]
pub struct ServiceTokenArgs {
    pub command: ServiceTokenCommand,
}

/// The commands below `cx service token`.
#[derive(Debug)]
pub enum ServiceTokenCommand {
    /// Store a service secret from stdin.
    Store(ServiceTokenSetArgs),
    /// Show whether a service secret is configured.
    Status(ServiceTokenStatusArgs),
    /// Remove a configured service secret.
    Delete(ServiceTokenDeleteArgs),
}

/// A secret that a service uses.
#[derive(Clone, Copy, Debug, PartialEq, Eq, Structural)]
pub enum ServiceTokenName {
    Telegram,
}

/// The arguments of `cx service token set`.
#[derive(Debug)]
pub struct ServiceTokenSetArgs {
    /// Profile-manager directory. Defaults to ~/.codex/profile-manager.
    pub manager_dir: Option<String>,
    /// Token to store. The token value is read from stdin.
    pub token: ServiceTokenName,
}

/// The arguments of `cx service token status`.
#[derive(Debug)]
pub struct ServiceTokenStatusArgs {
    /// Profile-manager directory. Defaults to ~/.codex/profile-manager.
    pub manager_dir: Option<String>,
    /// Print JSON instead of human output.
    pub json: bool,
}

/// The arguments of `cx service token delete`.
#[derive(Debug)]
pub struct ServiceTokenDeleteArgs {
    /// Profile-manager directory. Defaults to ~/.codex/profile-manager.
    pub manager_dir: Option<String>,
    /// Token to delete.
    pub token: ServiceTokenName,
}

impl PatCommand {
    /// The profile-manager directory that was asked for.
    pub open spec fn manager_dir_text(&self) -> Option<Seq<char>> {
        match self {
            PatCommand::Add(args) => crate::text::opt_text(args.manager_dir),
            PatCommand::Check(args) => crate::text::opt_text(args.manager_dir),
            PatCommand::Remove(args) => crate::text::opt_text(args.manager_dir),
            PatCommand::Refresh(args) => crate::text::opt_text(args.manager_dir),
        }
    }

    /// The profile-manager directory that was asked for.
    pub fn manager_dir(&self) -> (out: &Option<String>)
        ensures
            crate::text::opt_text(*out) == self.manager_dir_text(),
    {
        match self {
            PatCommand::Add(args) => &args.manager_dir,
            PatCommand::Check(args) => &args.manager_dir,
            PatCommand::Remove(args) => &args.manager_dir,
            PatCommand::Refresh(args) => &args.manager_dir,
        }
    }
}

/// Where the slots of a command come from.
#[derive(Clone, Copy, Debug, PartialEq, Eq, Structural)]
pub enum SlotSource {
    /// The command names its slots.
    Named,
    /// The target names its slots, or leaves them to the rotation.
    Target,
    /// The rotation.
    Rotation,
}

impl SlotQueryArgs {
    /// Where the slots come from: names win over a target, a target over the
    /// rotation.
    pub open spec fn source(&self) -> SlotSource {
        if self.slots@.len() > 0 {
            SlotSource::Named
        } else if self.target is Some {
            SlotSource::Target
        } else {
            SlotSource::Rotation
        }
    }

    /// Where the slots come from.
    pub fn slot_source(&self) -> (out: SlotSource)
        ensures
            out == self.source(),
    {
        if self.slots.len() > 0 {
            SlotSource::Named
        } else if self.target.is_some() {
            SlotSource::Target
        } else {
            SlotSource::Rotation
        }
    }

    /// The slots to ask, given those of the target and of the rotation.
    pub fn slots_or_rotation(&self, target_slots: &Vec<String>, rotation: &Vec<String>) -> (out: Vec<
        String,
    >)
        ensures
            crate::text::texts(out@) == (match self.source() {
                SlotSource::Named => crate::text::texts(self.slots@),
                SlotSource::Target => target_or_rotation(
                    crate::text::texts(target_slots@),
                    crate::text::texts(rotation@),
                ),
                SlotSource::Rotation => crate::text::texts(rotation@),
            }),
    {
        match self.slot_source() {
            SlotSource::Named => copy_all(&self.slots),
            SlotSource::Target => if target_slots.len() > 0 {
                copy_all(target_slots)
            } else {
                copy_all(rotation)
            },
            SlotSource::Rotation => copy_all(rotation),
        }
    }
}

/// The slots of a target, or the rotation if it names none.
pub open spec fn target_or_rotation(
    target_slots: Seq<Seq<char>>,
    rotation: Seq<Seq<char>>,
) -> Seq<Seq<char>> {
    if target_slots.len() > 0 {
        target_slots
    } else {
        rotation
    }
}

impl StatusArgs {
    /// The slots to ask, given those of the target and of the rotation.
    pub fn slots_or_rotation(&self, target_slots: &Vec<String>, rotation: &Vec<String>) -> (out: Vec<
        String,
    >)
        ensures
            crate::text::texts(out@) == (match self.query.source() {
                SlotSource::Named => crate::text::texts(self.query.slots@),
                SlotSource::Target => target_or_rotation(
                    crate::text::texts(target_slots@),
                    crate::text::texts(rotation@),
                ),
                SlotSource::Rotation => crate::text::texts(rotation@),
            }),
    {
        self.query.slots_or_rotation(target_slots, rotation)
    }
}

/// Slots that were named are used first, then those of the target where it has any,
/// and else the rotation.
pub proof fn named_slots_come_first(
    args: SlotQueryArgs,
    target_slots: Seq<Seq<char>>,
    rotation: Seq<Seq<char>>,
)
    ensures
        args.slots@.len() > 0 ==> args.source() == SlotSource::Named,
        args.slots@.len() == 0 && args.target is Some ==> args.source() == SlotSource::Target,
        args.slots@.len() == 0 && args.target is None ==> args.source() == SlotSource::Rotation,
        target_slots.len() > 0 ==> target_or_rotation(target_slots, rotation) == target_slots,
        target_or_rotation(seq![], rotation) == rotation,
{
}

} // verus!
