use cluster_compute::command::HostCommand;

#[test]
fn command_bytes() {
    assert_eq!(HostCommand::Wait.to_byte(), 0);
    assert_eq!(HostCommand::Execute.to_byte(), 1);
    assert_eq!(HostCommand::Terminate.to_byte(), 2);
}

#[test]
fn command_from_byte() {
    assert_eq!(HostCommand::try_from(0), Ok(HostCommand::Wait));
    assert_eq!(HostCommand::try_from(1), Ok(HostCommand::Execute));
    assert_eq!(HostCommand::try_from(2), Ok(HostCommand::Terminate));
    assert_eq!(HostCommand::try_from(3), Err(()));
    assert_eq!(HostCommand::try_from(255), Err(()));
}
