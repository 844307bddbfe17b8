//! The three-phase submission engine: analysis of the stack to submit,
//! planning of the minimal set of platform operations, and execution of the
//! plan in a fixed phase order.

pub mod analysis;
pub mod execute;
pub mod plan;
pub mod progress;

pub use analysis::analyze_submission;
pub use analysis::create_narrowed_segments;
pub use analysis::generate_pr_title;
pub use analysis::get_base_branch;
pub use analysis::select_bookmark_for_segment;
pub use analysis::SubmissionAnalysis;
pub use execute::build_stack_comment_data;
pub use execute::create_or_update_stack_comment;
pub use execute::execute_submission;
pub use execute::SubmissionResult;
pub use plan::create_submission_plan;
pub use plan::PrBaseUpdate;
pub use plan::PrToCreate;
pub use plan::SubmissionPlan;
pub use progress::NoopProgress;
pub use progress::Phase;
pub use progress::ProgressCallback;
pub use progress::PushStatus;
