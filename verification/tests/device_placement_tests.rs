use tpt_abyss::{DeviceSpec, LayerResidency, ResidencyPlan};

#[test]
fn all_cpu_plan() {
    let plan = ResidencyPlan::all_cpu(32);
    assert_eq!(plan.num_layers(), 32);
    assert_eq!(plan.gpu_count(), 0);
    assert_eq!(plan.cpu_count(), 32);
    assert!(matches!(plan.residency(0), LayerResidency::Cpu));
}

#[test]
fn static_split_plan() {
    let plan = ResidencyPlan::static_split(32, 8, 0);
    assert_eq!(plan.gpu_count(), 8);
    assert_eq!(plan.cpu_count(), 24);
    assert!(matches!(
        plan.residency(0),
        LayerResidency::Gpu { ordinal: 0 }
    ));
    assert!(matches!(
        plan.residency(7),
        LayerResidency::Gpu { ordinal: 0 }
    ));
    assert!(matches!(plan.residency(8), LayerResidency::Cpu));
}

#[test]
fn all_gpu_plan() {
    let plan = ResidencyPlan::all_gpu(4, 1);
    assert_eq!(plan.gpu_count(), 4);
    assert_eq!(plan.cpu_count(), 0);
    assert!(matches!(
        plan.residency(3),
        LayerResidency::Gpu { ordinal: 1 }
    ));
}

#[test]
fn device_spec_display() {
    assert_eq!(DeviceSpec::Cpu.to_string(), "cpu");
    assert_eq!(DeviceSpec::Cuda { ordinal: 0 }.to_string(), "cuda:0");
    assert_eq!(DeviceSpec::Cuda { ordinal: 3 }.to_string(), "cuda:3");
}

#[test]
fn set_residency() {
    let mut plan = ResidencyPlan::all_cpu(4);
    plan.set_residency(2, LayerResidency::Gpu { ordinal: 0 });
    assert!(matches!(
        plan.residency(2),
        LayerResidency::Gpu { ordinal: 0 }
    ));
    assert!(matches!(plan.residency(1), LayerResidency::Cpu));
}

#[test]
fn static_split_caps_gpu_layers_at_model_size() {
    let plan = ResidencyPlan::static_split(4, 10, 2);
    assert_eq!(plan.gpu_count(), 4);
    assert_eq!(plan.cpu_count(), 0);
    assert!(matches!(plan.residency(3), LayerResidency::Gpu { ordinal: 2 }));
}

#[test]
fn gpu_and_cpu_counts_add_up_to_layers() {
    let plan = ResidencyPlan::static_split(32, 24, 0);
    assert_eq!(plan.gpu_count() + plan.cpu_count(), plan.num_layers());
}

#[test]
fn set_residency_moves_one_layer_between_counts() {
    let mut plan = ResidencyPlan::all_gpu(6, 0);
    plan.set_residency(5, LayerResidency::Cpu);
    assert_eq!(plan.gpu_count(), 5);
    assert_eq!(plan.cpu_count(), 1);
    plan.set_residency(5, LayerResidency::Cpu);
    assert_eq!(plan.gpu_count(), 5);
}

#[test]
fn default_devices() {
    assert_eq!(DeviceSpec::default_cpu(), DeviceSpec::Cpu);
    assert_eq!(DeviceSpec::default_cuda(), DeviceSpec::Cuda { ordinal: 0 });
    assert_eq!(
        LayerResidency::Gpu { ordinal: 2 }.device_spec(),
        DeviceSpec::Cuda { ordinal: 2 }
    );
    assert_eq!(LayerResidency::Cpu.device_spec(), DeviceSpec::Cpu);
}

#[test]
fn cpu_device_is_created_and_cuda_is_refused() {
    assert!(DeviceSpec::Cpu.to_device().is_ok());
    let err = DeviceSpec::Cuda { ordinal: 0 }.to_device().unwrap_err();
    assert_eq!(err, "CUDA support not compiled (enable the 'cuda' feature)");
    assert!(LayerResidency::Gpu { ordinal: 1 }.to_device().is_err());
    let plan = ResidencyPlan::static_split(2, 1, 0);
    assert!(plan.device(0).is_err());
    assert!(plan.device(1).is_ok());
}

#[test]
fn residency_follows_the_target_device() {
    assert!(matches!(LayerResidency::residency_for(DeviceSpec::Cpu), LayerResidency::Cpu));
    assert!(matches!(
        LayerResidency::residency_for(DeviceSpec::Cuda { ordinal: 2 }),
        LayerResidency::Gpu { ordinal: 2 }
    ));
}
