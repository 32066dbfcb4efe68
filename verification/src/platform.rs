//! Target platforms.

use vstd::prelude::*;

verus! {

/// A platform that conda packages are built for.
#[derive(Debug, Clone, Copy, PartialEq, Eq, Structural)]
pub enum Platform {
    NoArch,
    Unknown,
    Linux32,
    Linux64,
    LinuxAarch64,
    LinuxArmV6l,
    LinuxArmV7l,
    LinuxLoongArch64,
    LinuxPpc64le,
    LinuxPpc64,
    LinuxPpc,
    LinuxS390X,
    LinuxRiscv32,
    LinuxRiscv64,
    FreeBsd32,
    FreeBsd64,
    FreeBsdArm64,
    Osx64,
    OsxArm64,
    IosArm64,
    IosSimulatorArm64,
    IosSimulator64,
    AndroidAarch64,
    AndroidArmV7a,
    Android64,
    Android32,
    Win32,
    Win64,
    WinArm64,
    EmscriptenWasm32,
    EmscriptenWasm64,
    WasiWasm32,
    ZosZ,
}

/// The name of a platform.
pub open spec fn platform_name(p: Platform) -> Seq<char> {
    match p {
        Platform::NoArch => "NoArch"@,
        Platform::Unknown => "Unknown"@,
        Platform::Linux32 => "Linux32"@,
        Platform::Linux64 => "Linux64"@,
        Platform::LinuxAarch64 => "LinuxAarch64"@,
        Platform::LinuxArmV6l => "LinuxArmV6l"@,
        Platform::LinuxArmV7l => "LinuxArmV7l"@,
        Platform::LinuxLoongArch64 => "LinuxLoongArch64"@,
        Platform::LinuxPpc64le => "LinuxPpc64le"@,
        Platform::LinuxPpc64 => "LinuxPpc64"@,
        Platform::LinuxPpc => "LinuxPpc"@,
        Platform::LinuxS390X => "LinuxS390X"@,
        Platform::LinuxRiscv32 => "LinuxRiscv32"@,
        Platform::LinuxRiscv64 => "LinuxRiscv64"@,
        Platform::FreeBsd32 => "FreeBsd32"@,
        Platform::FreeBsd64 => "FreeBsd64"@,
        Platform::FreeBsdArm64 => "FreeBsdArm64"@,
        Platform::Osx64 => "Osx64"@,
        Platform::OsxArm64 => "OsxArm64"@,
        Platform::IosArm64 => "IosArm64"@,
        Platform::IosSimulatorArm64 => "IosSimulatorArm64"@,
        Platform::IosSimulator64 => "IosSimulator64"@,
        Platform::AndroidAarch64 => "AndroidAarch64"@,
        Platform::AndroidArmV7a => "AndroidArmV7a"@,
        Platform::Android64 => "Android64"@,
        Platform::Android32 => "Android32"@,
        Platform::Win32 => "Win32"@,
        Platform::Win64 => "Win64"@,
        Platform::WinArm64 => "WinArm64"@,
        Platform::EmscriptenWasm32 => "EmscriptenWasm32"@,
        Platform::EmscriptenWasm64 => "EmscriptenWasm64"@,
        Platform::WasiWasm32 => "WasiWasm32"@,
        Platform::ZosZ => "ZosZ"@,
    }
}

impl Platform {
    /// The name of the platform.
    pub fn name(self) -> (r: &'static str)
        ensures
            r@ == platform_name(self),
    {
        match self {
            Platform::NoArch => "NoArch",
            Platform::Unknown => "Unknown",
            Platform::Linux32 => "Linux32",
            Platform::Linux64 => "Linux64",
            Platform::LinuxAarch64 => "LinuxAarch64",
            Platform::LinuxArmV6l => "LinuxArmV6l",
            Platform::LinuxArmV7l => "LinuxArmV7l",
            Platform::LinuxLoongArch64 => "LinuxLoongArch64",
            Platform::LinuxPpc64le => "LinuxPpc64le",
            Platform::LinuxPpc64 => "LinuxPpc64",
            Platform::LinuxPpc => "LinuxPpc",
            Platform::LinuxS390X => "LinuxS390X",
            Platform::LinuxRiscv32 => "LinuxRiscv32",
            Platform::LinuxRiscv64 => "LinuxRiscv64",
            Platform::FreeBsd32 => "FreeBsd32",
            Platform::FreeBsd64 => "FreeBsd64",
            Platform::FreeBsdArm64 => "FreeBsdArm64",
            Platform::Osx64 => "Osx64",
            Platform::OsxArm64 => "OsxArm64",
            Platform::IosArm64 => "IosArm64",
            Platform::IosSimulatorArm64 => "IosSimulatorArm64",
            Platform::IosSimulator64 => "IosSimulator64",
            Platform::AndroidAarch64 => "AndroidAarch64",
            Platform::AndroidArmV7a => "AndroidArmV7a",
            Platform::Android64 => "Android64",
            Platform::Android32 => "Android32",
            Platform::Win32 => "Win32",
            Platform::Win64 => "Win64",
            Platform::WinArm64 => "WinArm64",
            Platform::EmscriptenWasm32 => "EmscriptenWasm32",
            Platform::EmscriptenWasm64 => "EmscriptenWasm64",
            Platform::WasiWasm32 => "WasiWasm32",
            Platform::ZosZ => "ZosZ",
        }
    }
}

/// Each platform goes by the name that it is written with.
pub proof fn platforms_go_by_their_names()
    ensures
        platform_name(Platform::NoArch) == "NoArch"@,
        platform_name(Platform::Unknown) == "Unknown"@,
        platform_name(Platform::Linux32) == "Linux32"@,
        platform_name(Platform::Linux64) == "Linux64"@,
        platform_name(Platform::LinuxAarch64) == "LinuxAarch64"@,
        platform_name(Platform::LinuxArmV6l) == "LinuxArmV6l"@,
        platform_name(Platform::LinuxArmV7l) == "LinuxArmV7l"@,
        platform_name(Platform::LinuxLoongArch64) == "LinuxLoongArch64"@,
        platform_name(Platform::LinuxPpc64le) == "LinuxPpc64le"@,
        platform_name(Platform::LinuxPpc64) == "LinuxPpc64"@,
        platform_name(Platform::LinuxPpc) == "LinuxPpc"@,
        platform_name(Platform::LinuxS390X) == "LinuxS390X"@,
        platform_name(Platform::LinuxRiscv32) == "LinuxRiscv32"@,
        platform_name(Platform::LinuxRiscv64) == "LinuxRiscv64"@,
        platform_name(Platform::FreeBsd32) == "FreeBsd32"@,
        platform_name(Platform::FreeBsd64) == "FreeBsd64"@,
        platform_name(Platform::FreeBsdArm64) == "FreeBsdArm64"@,
        platform_name(Platform::Osx64) == "Osx64"@,
        platform_name(Platform::OsxArm64) == "OsxArm64"@,
        platform_name(Platform::IosArm64) == "IosArm64"@,
        platform_name(Platform::IosSimulatorArm64) == "IosSimulatorArm64"@,
        platform_name(Platform::IosSimulator64) == "IosSimulator64"@,
        platform_name(Platform::AndroidAarch64) == "AndroidAarch64"@,
        platform_name(Platform::AndroidArmV7a) == "AndroidArmV7a"@,
        platform_name(Platform::Android64) == "Android64"@,
        platform_name(Platform::Android32) == "Android32"@,
        platform_name(Platform::Win32) == "Win32"@,
        platform_name(Platform::Win64) == "Win64"@,
        platform_name(Platform::WinArm64) == "WinArm64"@,
        platform_name(Platform::EmscriptenWasm32) == "EmscriptenWasm32"@,
        platform_name(Platform::EmscriptenWasm64) == "EmscriptenWasm64"@,
        platform_name(Platform::WasiWasm32) == "WasiWasm32"@,
        platform_name(Platform::ZosZ) == "ZosZ"@,
{
}

} // verus!
