//! The constants of the pipeline, gathered in one place.

use vstd::prelude::*;

verus! {

/// What can be tuned without changing the code.
#[derive(Clone, Copy, Debug, PartialEq, Eq, Structural)]
pub struct Config {
    /// A horizontal ruling line is at least the image width divided by
    /// this.
    pub horizontal_divisor: u32,
    /// A vertical ruling line is at least the image height divided by this.
    pub vertical_divisor: u32,
    /// How often the opening that isolates ruling lines is applied.
    pub opening_iterations: u32,
    /// How often the mask of the ruling lines is eroded.
    pub erosion_iterations: u32,
    /// The tolerance of the simplification of a hull is its perimeter
    /// times `tolerance_numerator / tolerance_denominator`.
    pub tolerance_numerator: u32,
    pub tolerance_denominator: u32,
    /// The column whose cells are read.
    pub column: usize,
    /// Rows with fewer boxes than this are not read.
    pub min_columns: usize,
    /// A cell is read only if it is wider and higher than this.
    pub min_cell_size: i32,
    /// The margin, in pixels of the table image, by which ruling lines are
    /// kept out of a cell image.
    pub delta: u16,
    /// The factor by which a cell image is enlarged before it is read.
    pub scale: u16,
    /// How far left of the column a cell may begin before it is taken to
    /// touch the ruling to its left.
    pub left_slack: i32,
}

impl Config {
    /// Whether the configuration can be used: nothing is divided by zero.
    pub open spec fn well_formed(&self) -> bool {
        &&& self.horizontal_divisor > 0
        &&& self.vertical_divisor > 0
        &&& self.tolerance_denominator > 0
    }

    /// The configuration that is used where none is given.
    pub open spec fn standard() -> Config {
        Config {
            horizontal_divisor: 50,
            vertical_divisor: 35,
            opening_iterations: 8,
            erosion_iterations: 2,
            tolerance_numerator: 1,
            tolerance_denominator: 1000,
            column: 1,
            min_columns: 3,
            min_cell_size: 10,
            delta: 1,
            scale: 2,
            left_slack: 10,
        }
    }

    /// Decides whether the configuration can be used.
    pub fn is_well_formed(&self) -> (r: bool)
        ensures
            r == self.well_formed(),
    {
        self.horizontal_divisor > 0 && self.vertical_divisor > 0 && self.tolerance_denominator > 0
    }
}

impl Default for Config {
    fn default() -> (r: Config)
        ensures
            r == Config::standard(),
            r.well_formed(),
    {
        Config {
            horizontal_divisor: 50,
            vertical_divisor: 35,
            opening_iterations: 8,
            erosion_iterations: 2,
            tolerance_numerator: 1,
            tolerance_denominator: 1000,
            column: 1,
            min_columns: 3,
            min_cell_size: 10,
            delta: 1,
            scale: 2,
            left_slack: 10,
        }
    }
}

/// The size of a structuring kernel.
#[derive(Clone, Copy, Debug, PartialEq, Eq, Structural)]
pub struct KernelSize {
    pub width: u32,
    pub height: u32,
}

/// How the ruling lines of a table image are isolated.
#[derive(Clone, Copy, Debug, PartialEq, Eq, Structural)]
pub struct RulingPlan {
    /// The kernel that only horizontal lines survive: wide and one pixel
    /// high.
    pub horizontal: KernelSize,
    /// The kernel that only vertical lines survive: one pixel wide and
    /// tall.
    pub vertical: KernelSize,
    /// How often the opening with each kernel is applied.
    pub opening_iterations: u32,
    /// How often the combined mask is eroded.
    pub erosion_iterations: u32,
}

/// The plan for an image of the given size.
pub open spec fn ruling_plan(width: u32, height: u32, config: Config) -> RulingPlan {
    RulingPlan {
        horizontal: KernelSize {
            width: (width as int / config.horizontal_divisor as int) as u32,
            height: 1,
        },
        vertical: KernelSize {
            width: 1,
            height: (height as int / config.vertical_divisor as int) as u32,
        },
        opening_iterations: config.opening_iterations,
        erosion_iterations: config.erosion_iterations,
    }
}

/// Plans the isolation of the ruling lines of an image of the given size.
pub fn plan_ruling(width: u32, height: u32, config: &Config) -> (r: RulingPlan)
    requires
        config.well_formed(),
    ensures
        r == ruling_plan(width, height, *config),
{
    RulingPlan {
        horizontal: KernelSize { width: width / config.horizontal_divisor, height: 1 },
        vertical: KernelSize { width: 1, height: height / config.vertical_divisor },
        opening_iterations: config.opening_iterations,
        erosion_iterations: config.erosion_iterations,
    }
}

} // verus!
