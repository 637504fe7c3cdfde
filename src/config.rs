use vstd::prelude::*;

verus! {

/// Default quantization step for the first singular value.
pub const DEFAULT_STRENGTH_1: i32 = 36;

/// Quantization step for the second singular value used with a seeded layout.
pub const SEEDED_STRENGTH_2: i32 = 20;

/// How watermark bits are distributed over the image blocks.
#[derive(Clone, Copy, Debug, PartialEq, Eq, Structural)]
pub enum WatermarkMode {
    /// Block `i` carries bit `i % wm_len`.
    Normal,
    /// Block `i` carries bit `f[i] % wm_len`, where `f` is a permutation of
    /// the block indices drawn from a generator seeded with the value.
    Strategy(u64),
}

/// Configuration for the watermarking process.
#[derive(Clone, Debug)]
pub struct WatermarkConfig {
    /// Quantization step for the first singular value.
    pub strength_1: i32,
    /// Quantization step for the second singular value, when it is used.
    pub strength_2: Option<i32>,
    /// How bits are laid out over the blocks.
    pub mode: WatermarkMode,
}

/// Why a configuration was rejected.
#[derive(Clone, Copy, Debug, PartialEq, Eq, Structural)]
pub enum ConfigError {
    /// `strength_1` was zero or negative.
    NonPositiveStrength1,
    /// `strength_2` was given and zero or negative.
    NonPositiveStrength2,
}

impl WatermarkConfig {
    /// Both quantization steps that are in use are positive.
    pub open spec fn wf(&self) -> bool {
        &&& self.strength_1 > 0
        &&& match self.strength_2 {
            Some(s) => s > 0,
            None => true,
        }
    }

    /// The configuration used for a given optional seed: the defaults without
    /// one; with one, the seeded layout and a second step of `SEEDED_STRENGTH_2`.
    pub fn from_seed(seed: Option<u64>) -> (r: WatermarkConfig)
        ensures
            r.wf(),
            r.strength_1 == DEFAULT_STRENGTH_1,
            seed is None ==> r.strength_2 is None && r.mode == WatermarkMode::Normal,
            seed matches Some(s) ==> r.strength_2 == Some(SEEDED_STRENGTH_2) && r.mode
                == WatermarkMode::Strategy(s),
    {
        match seed {
            None => WatermarkConfig::default(),
            Some(s) => WatermarkConfig {
                strength_1: DEFAULT_STRENGTH_1,
                strength_2: Some(SEEDED_STRENGTH_2),
                mode: WatermarkMode::Strategy(s),
            },
        }
    }
}

impl Default for WatermarkConfig {
    fn default() -> (r: WatermarkConfig)
        ensures
            r.strength_1 == DEFAULT_STRENGTH_1,
            r.strength_2 is None,
            r.mode == WatermarkMode::Normal,
            r.wf(),
    {
        WatermarkConfig { strength_1: DEFAULT_STRENGTH_1, strength_2: None, mode: WatermarkMode::Normal }
    }
}

/// Step-by-step construction of a `WatermarkConfig`; unset fields take their
/// defaults, and `build` rejects non-positive steps.
#[derive(Clone, Debug)]
pub struct WatermarkConfigBuilder {
    pub strength_1: Option<i32>,
    pub strength_2: Option<Option<i32>>,
    pub mode: Option<WatermarkMode>,
}

impl Default for WatermarkConfigBuilder {
    fn default() -> (r: WatermarkConfigBuilder)
        ensures
            r.strength_1 is None,
            r.strength_2 is None,
            r.mode is None,
    {
        WatermarkConfigBuilder { strength_1: None, strength_2: None, mode: None }
    }
}

impl WatermarkConfigBuilder {
    /// The step for the first singular value that `build` will use.
    pub open spec fn spec_strength_1(&self) -> i32 {
        match self.strength_1 {
            Some(s) => s,
            None => DEFAULT_STRENGTH_1,
        }
    }

    /// The step for the second singular value that `build` will use.
    pub open spec fn spec_strength_2(&self) -> Option<i32> {
        match self.strength_2 {
            Some(s) => s,
            None => None,
        }
    }

    /// The mode that `build` will use.
    pub open spec fn spec_mode(&self) -> WatermarkMode {
        match self.mode {
            Some(m) => m,
            None => WatermarkMode::Normal,
        }
    }

    pub fn strength_1(self, value: i32) -> (r: WatermarkConfigBuilder)
        ensures
            r == (WatermarkConfigBuilder { strength_1: Some(value), ..self }),
    {
        WatermarkConfigBuilder { strength_1: Some(value), ..self }
    }

    pub fn strength_2(self, value: i32) -> (r: WatermarkConfigBuilder)
        ensures
            r == (WatermarkConfigBuilder { strength_2: Some(Some(value)), ..self }),
    {
        WatermarkConfigBuilder { strength_2: Some(Some(value)), ..self }
    }

    pub fn mode(self, value: WatermarkMode) -> (r: WatermarkConfigBuilder)
        ensures
            r == (WatermarkConfigBuilder { mode: Some(value), ..self }),
    {
        WatermarkConfigBuilder { mode: Some(value), ..self }
    }

    /// Builds the configuration, or says which step is not positive.
    pub fn build(&self) -> (r: Result<WatermarkConfig, ConfigError>)
        ensures
            self.spec_strength_1() <= 0 ==> r == Err::<WatermarkConfig, ConfigError>(
                ConfigError::NonPositiveStrength1,
            ),
            self.spec_strength_1() > 0 && (self.spec_strength_2() matches Some(s) && s <= 0)
                ==> r == Err::<WatermarkConfig, ConfigError>(ConfigError::NonPositiveStrength2),
            r is Ok <==> (WatermarkConfig {
                strength_1: self.spec_strength_1(),
                strength_2: self.spec_strength_2(),
                mode: self.spec_mode(),
            }).wf(),
            r matches Ok(c) ==> c.strength_1 == self.spec_strength_1() && c.strength_2
                == self.spec_strength_2() && c.mode == self.spec_mode(),
    {
        let strength_1 = match self.strength_1 {
            Some(s) => s,
            None => DEFAULT_STRENGTH_1,
        };
        let strength_2 = match self.strength_2 {
            Some(s) => s,
            None => None,
        };
        let mode = match self.mode {
            Some(m) => m,
            None => WatermarkMode::Normal,
        };
        if strength_1 <= 0 {
            return Err(ConfigError::NonPositiveStrength1);
        }
        if let Some(s) = strength_2 {
            if s <= 0 {
                return Err(ConfigError::NonPositiveStrength2);
            }
        }
        Ok(WatermarkConfig { strength_1, strength_2, mode })
    }
}

} // verus!
