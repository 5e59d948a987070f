//! The configuration of a render and its validation.

use vstd::prelude::*;
use crate::math::Vec2;
use crate::tile::ThreadDescryptor;
use crate::tile::partition;
use crate::tile::tile_at;
use crate::tile::tile_count;
use crate::tile::tile_rect;

verus! {

/// Why a configuration cannot be rendered.
#[derive(Copy, Clone, Debug, PartialEq, Eq)]
pub enum ConfigError {
    /// The canvas has no pixels.
    ZeroCanvas,
    /// The number of pixels of the canvas does not fit in `usize`.
    CanvasTooLarge,
    /// The nominal tile has no pixels.
    ZeroTile,
    /// There is no worker thread.
    ZeroThreads,
    /// No sample is drawn per pixel.
    ZeroSamples,
    /// The palette has no color.
    EmptyPalette,
}

/// All that a render is configured by. `V` is the scalar type of the plane
/// that is drawn.
#[derive(Copy, Debug, PartialEq)]
pub struct RenderConfig<V> {
    /// Width and height of the canvas, in pixels.
    pub buffer_size: Vec2<usize>,
    /// Nominal width and height of a tile, in pixels.
    pub thread_size: Vec2<usize>,
    /// How many workers render at the same time.
    pub thread_count: usize,
    /// How many samples are drawn for each pixel.
    pub sample_count: usize,
    /// The point of the plane at the middle of the canvas.
    pub center: Vec2<V>,
    /// Width and height of the part of the plane that the canvas shows.
    pub view_size: Vec2<V>,
    /// Where the escape-time iteration stops at the latest.
    pub max_iterations: u32,
    /// The magnitude above which a point counts as escaped.
    pub max_length: V,
    /// How many colors the palette has.
    pub palette_size: usize,
}

impl<V: Copy> Clone for RenderConfig<V> {
    fn clone(&self) -> (c: Self)
        ensures
            c == *self,
    {
        *self
    }
}

impl<V: Copy> RenderConfig<V> {
    /// The first fault of the configuration, if it has one.
    pub open spec fn first_error(&self) -> Option<ConfigError> {
        if self.buffer_size.x == 0 || self.buffer_size.y == 0 {
            Some(ConfigError::ZeroCanvas)
        } else if self.buffer_size.x * self.buffer_size.y > usize::MAX {
            Some(ConfigError::CanvasTooLarge)
        } else if self.thread_size.x == 0 || self.thread_size.y == 0 {
            Some(ConfigError::ZeroTile)
        } else if self.thread_count == 0 {
            Some(ConfigError::ZeroThreads)
        } else if self.sample_count == 0 {
            Some(ConfigError::ZeroSamples)
        } else if self.palette_size == 0 {
            Some(ConfigError::EmptyPalette)
        } else {
            None
        }
    }

    /// Checks the configuration: `Ok` exactly if it has no fault, else its first fault.
    pub fn validate(&self) -> (r: Result<(), ConfigError>)
        ensures
            r == (match self.first_error() {
                Some(e) => Err::<(), ConfigError>(e),
                None => Ok::<(), ConfigError>(()),
            }),
    {
        if self.buffer_size.x == 0 || self.buffer_size.y == 0 {
            return Err(ConfigError::ZeroCanvas);
        }
        if self.buffer_size.x.checked_mul(self.buffer_size.y).is_none() {
            return Err(ConfigError::CanvasTooLarge);
        }
        if self.thread_size.x == 0 || self.thread_size.y == 0 {
            return Err(ConfigError::ZeroTile);
        }
        if self.thread_count == 0 {
            return Err(ConfigError::ZeroThreads);
        }
        if self.sample_count == 0 {
            return Err(ConfigError::ZeroSamples);
        }
        if self.palette_size == 0 {
            return Err(ConfigError::EmptyPalette);
        }
        Ok(())
    }

    /// How many pixels the canvas has, for a configuration without fault.
    pub fn pixel_count(&self) -> (r: Result<usize, ConfigError>)
        ensures
            match self.first_error() {
                Some(e) => r == Err::<usize, ConfigError>(e),
                None => r == Ok::<usize, ConfigError>(
                    (self.buffer_size.x * self.buffer_size.y) as usize,
                ),
            },
    {
        match self.validate() {
            Err(e) => Err(e),
            Ok(_) => Ok(self.buffer_size.x * self.buffer_size.y),
        }
    }

    /// The tiles of the canvas in row-major order, for a configuration without
    /// fault; else its first fault.
    pub fn tiles(&self) -> (r: Result<Vec<ThreadDescryptor<V>>, ConfigError>)
        ensures
            match self.first_error() {
                Some(e) => r == Err::<Vec<ThreadDescryptor<V>>, ConfigError>(e),
                None => {
                    &&& r is Ok
                    &&& r->Ok_0@.len() == tile_count(self.buffer_size, self.thread_size)
                    &&& forall|i: int|
                        0 <= i < r->Ok_0@.len() ==> #[trigger] r->Ok_0@[i] == tile_at(
                            self.buffer_size,
                            self.thread_size,
                            self.sample_count,
                            self.center,
                            self.view_size,
                            i,
                        )
                    &&& forall|i: int|
                        0 <= i < r->Ok_0@.len() ==> (#[trigger] r->Ok_0@[i]).rect() == tile_rect(
                            self.buffer_size,
                            self.thread_size,
                            i,
                        ) && r->Ok_0@[i].wf()
                },
            },
    {
        match self.validate() {
            Err(e) => Err(e),
            Ok(_) => Ok(
                partition(
                    self.buffer_size,
                    self.thread_size,
                    self.sample_count,
                    self.center,
                    self.view_size,
                ),
            ),
        }
    }
}

} // verus!
